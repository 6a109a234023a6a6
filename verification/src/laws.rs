use vstd::prelude::*;

use crate::dispatch::apply_command;
use crate::io::CommandView;
use crate::plaintext::is_wsp;

verus! {

/// The mapping left after a whole sequence of commands has run, in order.
pub open spec fn apply_all(m: Map<Seq<u8>, Seq<u8>>, cs: Seq<CommandView>) -> Map<Seq<u8>, Seq<u8>>
    decreases cs.len(),
{
    if cs.len() == 0 {
        m
    } else {
        apply_all(apply_command(m, cs[0]).0, cs.skip(1))
    }
}

/// Law: for any key and value free of whitespace and newline bytes,
/// storing the value and then getting the key answers exactly that value.
pub proof fn lemma_set_then_get(m: Map<Seq<u8>, Seq<u8>>, k: Seq<u8>, v: Seq<u8>)
    requires
        forall|i: int| 0 <= i < k.len() ==> !is_wsp(k[i]),
        forall|i: int| 0 <= i < v.len() ==> !is_wsp(v[i]),
    ensures
        apply_command(
            apply_command(m, CommandView::Put { key: k, val: v }).0,
            CommandView::Get { key: k },
        ).1 == Some(v),
{
}

/// Law: getting a key never stored answers absence — no reply at all —
/// and not an empty value.
pub proof fn lemma_get_absent(m: Map<Seq<u8>, Seq<u8>>, k: Seq<u8>)
    requires
        !m.contains_key(k),
    ensures
        apply_command(m, CommandView::Get { key: k }).1 is None,
        apply_command(m, CommandView::Get { key: k }).1 != Some(Seq::<u8>::empty()),
{
}

/// Law: of two stores to the same key, the second wins.
pub proof fn lemma_set_twice(m: Map<Seq<u8>, Seq<u8>>, k: Seq<u8>, v1: Seq<u8>, v2: Seq<u8>)
    ensures
        apply_command(
            apply_command(
                apply_command(m, CommandView::Put { key: k, val: v1 }).0,
                CommandView::Put { key: k, val: v2 },
            ).0,
            CommandView::Get { key: k },
        ).1 == Some(v2),
{
}

/// Commands that only store, each under its own key, none equal to `k`.
pub open spec fn all_puts_avoiding(cs: Seq<CommandView>, k: Seq<u8>) -> bool {
    forall|j: int| 0 <= j < cs.len() ==> (#[trigger] cs[j]) is Put && cs[j]->Put_key != k
}

/// Stores to other keys leave what lies under `k` untouched.
proof fn lemma_apply_all_frame(m: Map<Seq<u8>, Seq<u8>>, cs: Seq<CommandView>, k: Seq<u8>)
    requires
        all_puts_avoiding(cs, k),
    ensures
        apply_all(m, cs).contains_key(k) == m.contains_key(k),
        m.contains_key(k) ==> apply_all(m, cs)[k] == m[k],
    decreases cs.len(),
{
    if cs.len() > 0 {
        assert(all_puts_avoiding(cs.skip(1), k)) by {
            assert(forall|j: int|
                0 <= j < cs.skip(1).len() ==> cs.skip(1)[j] == cs[j + 1]);
        }
        lemma_apply_all_frame(apply_command(m, cs[0]).0, cs.skip(1), k);
    }
}

/// Law: stores on pairwise distinct keys all persist, in whatever order
/// they are interleaved; none is lost to another.
pub proof fn lemma_disjoint_sets_persist(m: Map<Seq<u8>, Seq<u8>>, cs: Seq<CommandView>, i: int)
    requires
        forall|j: int| 0 <= j < cs.len() ==> (#[trigger] cs[j]) is Put,
        forall|j: int, l: int|
            0 <= j < l < cs.len() ==> (#[trigger] cs[j])->Put_key != (#[trigger] cs[l])->Put_key,
        0 <= i < cs.len(),
    ensures
        apply_all(m, cs).contains_key(cs[i]->Put_key),
        apply_all(m, cs)[cs[i]->Put_key] == cs[i]->Put_val,
    decreases cs.len(),
{
    let rest = cs.skip(1);
    assert(forall|j: int| 0 <= j < rest.len() ==> rest[j] == cs[j + 1]);
    let m1 = apply_command(m, cs[0]).0;
    if i == 0 {
        assert(all_puts_avoiding(rest, cs[0]->Put_key));
        lemma_apply_all_frame(m1, rest, cs[0]->Put_key);
    } else {
        lemma_disjoint_sets_persist(m1, rest, i - 1);
    }
}

} // verus!
