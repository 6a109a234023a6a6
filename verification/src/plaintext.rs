use vstd::prelude::*;

use crate::io::{Command, CommandView, result_view};
pub use crate::io::InvalidCommand;

verus! {

/// ASCII whitespace: space, tab, line feed, form feed, carriage return.
pub open spec fn is_wsp(b: u8) -> bool {
    b == 32 || b == 9 || b == 10 || b == 12 || b == 13
}

/// The tokens of `s` from index `i` on, `cur` being the partial token
/// gathered so far.
pub open spec fn tokens_from(s: Seq<u8>, i: int, cur: Seq<u8>) -> Seq<Seq<u8>>
    decreases s.len() - i,
{
    if i < 0 || i >= s.len() {
        if cur.len() == 0 {
            Seq::empty()
        } else {
            seq![cur]
        }
    } else if is_wsp(s[i]) {
        if cur.len() == 0 {
            tokens_from(s, i + 1, Seq::empty())
        } else {
            seq![cur] + tokens_from(s, i + 1, Seq::empty())
        }
    } else {
        tokens_from(s, i + 1, cur.push(s[i]))
    }
}

/// The whitespace-separated tokens of `s`, in order.
pub open spec fn tokens_of(s: Seq<u8>) -> Seq<Seq<u8>> {
    tokens_from(s, 0, Seq::empty())
}

/// The bytes of the verb `get`.
pub open spec fn get_verb() -> Seq<u8> {
    seq![103u8, 101u8, 116u8]
}

/// The bytes of the verb `set`.
pub open spec fn set_verb() -> Seq<u8> {
    seq![115u8, 101u8, 116u8]
}

/// The verb of a wire command.
#[derive(Debug)]
pub enum CommandCode {
    Get,
    Put,
}

/// Which verb a token names; any other token is an unknown command.
pub open spec fn code_of(t: Seq<u8>) -> Result<CommandCode, InvalidCommand> {
    if t == get_verb() {
        Ok(CommandCode::Get)
    } else if t == set_verb() {
        Ok(CommandCode::Put)
    } else {
        Err(InvalidCommand::UnknownCommand)
    }
}

/// Recognize a verb token; only the exact lowercase verbs are accepted.
pub fn parse_code(token: &Vec<u8>) -> (r: Result<CommandCode, InvalidCommand>)
    ensures
        r == code_of(token@),
{
    if token.len() == 3 && token[0] == 103 && token[1] == 101 && token[2] == 116 {
        proof {
            assert(token@ =~= get_verb());
        }
        Ok(CommandCode::Get)
    } else if token.len() == 3 && token[0] == 115 && token[1] == 101 && token[2] == 116 {
        proof {
            assert(token@ =~= set_verb());
        }
        Ok(CommandCode::Put)
    } else {
        proof {
            assert(token@ != get_verb() && token@ != set_verb()) by {
                assert(get_verb().len() == 3 && get_verb()[0] == 103 && get_verb()[1] == 101
                    && get_verb()[2] == 116);
                assert(set_verb().len() == 3 && set_verb()[0] == 115 && set_verb()[1] == 101
                    && set_verb()[2] == 116);
            }
        }
        Err(InvalidCommand::UnknownCommand)
    }
}

/// The arity rule: `get` takes exactly one argument, `set` exactly two.
pub open spec fn build_spec(code: CommandCode, args: Seq<Seq<u8>>) -> Result<
    CommandView,
    InvalidCommand,
> {
    match code {
        CommandCode::Get => if args.len() == 1 {
            Ok(CommandView::Get { key: args[0] })
        } else {
            Err(InvalidCommand::WrongNumberOfArgs)
        },
        CommandCode::Put => if args.len() == 2 {
            Ok(CommandView::Put { key: args[0], val: args[1] })
        } else {
            Err(InvalidCommand::WrongNumberOfArgs)
        },
    }
}

/// The views of a list of byte strings, in order.
pub open spec fn views_of(ts: Seq<Vec<u8>>) -> Seq<Seq<u8>> {
    Seq::new(ts.len(), |i: int| ts[i]@)
}

/// Build a command from its code and raw arguments, enforcing arity.
pub fn build_command(code: CommandCode, args: Vec<Vec<u8>>) -> (r: Result<Command, InvalidCommand>)
    ensures
        result_view(r) == build_spec(code, views_of(args@)),
{
    let ghost args0 = views_of(args@);
    let mut args = args;
    match code {
        CommandCode::Get => {
            if args.len() == 1 {
                let key = args.pop().unwrap();
                proof {
                    assert(key@ == args0[0]);
                }
                Ok(Command::Get { key })
            } else {
                Err(InvalidCommand::WrongNumberOfArgs)
            }
        },
        CommandCode::Put => {
            if args.len() == 2 {
                let val = args.pop().unwrap();
                let key = args.pop().unwrap();
                proof {
                    assert(key@ == args0[0]);
                    assert(val@ == args0[1]);
                }
                Ok(Command::Put { key, val })
            } else {
                Err(InvalidCommand::WrongNumberOfArgs)
            }
        },
    }
}

/// Whether `b` is ASCII whitespace.
fn wsp_byte(b: u8) -> (r: bool)
    ensures
        r == is_wsp(b),
{
    b == 32 || b == 9 || b == 10 || b == 12 || b == 13
}

/// Split a line into its whitespace-separated tokens, in order.
pub fn tokenize(line: &Vec<u8>) -> (r: Vec<Vec<u8>>)
    ensures
        views_of(r@) == tokens_of(line@),
{
    let ghost s = line@;
    let mut tokens: Vec<Vec<u8>> = Vec::new();
    let mut cur: Vec<u8> = Vec::new();
    let mut i: usize = 0;
    while i < line.len()
        invariant
            i <= line.len(),
            s == line@,
            tokens_of(s) == views_of(tokens@) + tokens_from(s, i as int, cur@),
        decreases line@.len() - i,
    {
        let ghost i0 = i as int;
        let ghost cur_pre = cur@;
        let b = line[i];
        if wsp_byte(b) {
            if cur.len() > 0 {
                let ghost tokens_pre = tokens@;
                tokens.push(cur);
                cur = Vec::new();
                proof {
                    assert(tokens_from(s, i0, cur_pre) == seq![cur_pre] + tokens_from(
                        s,
                        i0 + 1,
                        Seq::empty(),
                    ));
                    assert(views_of(tokens@) =~= views_of(tokens_pre) + seq![cur_pre]);
                    assert((views_of(tokens_pre) + seq![cur_pre]) + tokens_from(
                        s,
                        i0 + 1,
                        Seq::empty(),
                    ) =~= views_of(tokens_pre) + (seq![cur_pre] + tokens_from(
                        s,
                        i0 + 1,
                        Seq::empty(),
                    )));
                }
            } else {
                proof {
                    assert(cur_pre =~= Seq::<u8>::empty());
                    assert(tokens_from(s, i0, cur_pre) == tokens_from(s, i0 + 1, Seq::empty()));
                }
            }
        } else {
            cur.push(b);
            proof {
                assert(tokens_from(s, i0, cur_pre) == tokens_from(s, i0 + 1, cur_pre.push(s[i0])));
            }
        }
        i = i + 1;
    }
    if cur.len() > 0 {
        let ghost tokens_pre = tokens@;
        tokens.push(cur);
        proof {
            assert(views_of(tokens@) =~= views_of(tokens_pre) + seq![cur@]);
        }
    }
    proof {
        assert(views_of(tokens@) =~= tokens_of(s));
    }
    tokens
}

/// What one line decodes to: a command, or the error it earns.
pub open spec fn parse_command_spec(line: Seq<u8>) -> Result<CommandView, InvalidCommand> {
    let ts = tokens_of(line);
    if ts.len() == 0 {
        Err(InvalidCommand::EmptyCommand)
    } else {
        match code_of(ts[0]) {
            Ok(code) => build_spec(code, ts.skip(1)),
            Err(e) => Err(e),
        }
    }
}

/// Decode one protocol line: tokenize, read the verb, enforce arity.
pub fn parse_command(line: &Vec<u8>) -> (r: Result<Command, InvalidCommand>)
    ensures
        result_view(r) == parse_command_spec(line@),
{
    let mut tokens = tokenize(line);
    let ghost ts = tokens_of(line@);
    if tokens.len() == 0 {
        return Err(InvalidCommand::EmptyCommand);
    }
    let verb = tokens.remove(0);
    proof {
        assert(verb@ == ts[0]);
        assert(views_of(tokens@) =~= ts.skip(1));
    }
    match parse_code(&verb) {
        Ok(code) => build_command(code, tokens),
        Err(e) => Err(e),
    }
}

/// The index just past the line that starts at `p`: just past the first
/// newline at or after `p`, or the end of the stream if none is left.
pub open spec fn line_end(s: Seq<u8>, p: int) -> int
    decreases s.len() - p,
{
    if p < 0 || p >= s.len() {
        p
    } else if s[p] == 10 {
        p + 1
    } else {
        line_end(s, p + 1)
    }
}

/// Scanning past newline-free bytes does not move a line's end.
proof fn lemma_line_end_skip(s: Seq<u8>, p: int, e: int)
    requires
        0 <= p <= e <= s.len(),
        forall|j: int| p <= j < e ==> s[j] != 10,
    ensures
        line_end(s, p) == line_end(s, e),
    decreases e - p,
{
    if p < e {
        lemma_line_end_skip(s, p + 1, e);
    }
}

/// Decodes a byte stream one line at a time, as a lazy sequence of
/// command-or-error results.
pub struct PlainTextReader {
    input: Vec<u8>,
    pos: usize,
}

impl PlainTextReader {
    /// The bytes this reader decodes.
    pub closed spec fn stream(&self) -> Seq<u8> {
        self.input@
    }

    /// How far decoding has advanced into the stream.
    pub closed spec fn position(&self) -> int {
        self.pos as int
    }

    #[verifier::type_invariant]
    spec fn wf(&self) -> bool {
        self.pos <= self.input.len()
    }

    /// Bind a reader to the bytes of one connection's readable half.
    pub fn new(stream: Vec<u8>) -> (r: PlainTextReader)
        ensures
            r.stream() == stream@,
            r.position() == 0,
    {
        PlainTextReader { input: stream, pos: 0 }
    }

    /// Pull the next decode result. An exhausted stream yields `None`, for
    /// good; otherwise one line is consumed and decoded.
    pub fn next(&mut self) -> (r: Option<Result<Command, InvalidCommand>>)
        ensures
            final(self).stream() == old(self).stream(),
            old(self).position() <= old(self).stream().len(),
            final(self).position() <= final(self).stream().len(),
            old(self).position() == old(self).stream().len() ==> r is None && final(self).position()
                == old(self).position(),
            old(self).position() < old(self).stream().len() ==> {
                let e = line_end(old(self).stream(), old(self).position());
                &&& final(self).position() == e
                &&& r matches Some(item) && result_view(item) == parse_command_spec(
                    old(self).stream().subrange(old(self).position(), e),
                )
            },
    {
        proof {
            use_type_invariant(&*self);
        }
        let ghost s = self.input@;
        let ghost p0 = self.pos as int;
        if self.pos == self.input.len() {
            return None;
        }
        let mut e = self.pos;
        while e < self.input.len() && self.input[e] != 10
            invariant
                p0 <= e as int <= s.len(),
                self.input@ == s,
                self.pos as int == p0,
                forall|j: int| p0 <= j < e as int ==> s[j] != 10,
            decreases s.len() - e as int,
        {
            e = e + 1;
        }
        let end = if e < self.input.len() {
            e + 1
        } else {
            e
        };
        proof {
            lemma_line_end_skip(s, p0, e as int);
            assert(line_end(s, p0) == end as int);
        }
        let mut line: Vec<u8> = Vec::new();
        let mut i = self.pos;
        while i < end
            invariant
                p0 <= i as int <= end as int,
                end as int <= s.len(),
                self.input@ == s,
                self.pos as int == p0,
                line@ == s.subrange(p0, i as int),
            decreases end as int - i as int,
        {
            let b = self.input[i];
            line.push(b);
            proof {
                assert(line@ =~= s.subrange(p0, i as int + 1));
            }
            i = i + 1;
        }
        self.pos = end;
        Some(parse_command(&line))
    }
}

impl crate::io::CommandReader for PlainTextReader {

}

} // verus!
