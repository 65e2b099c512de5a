//! The laws the machine keeps, proved over the step relation.
//!
//! The two standing invariants live on the step itself:
//! [`crate::exa::Exa::execute_current_instruction`] ensures that a well
//! formed world stays well formed — every host within its occupancy
//! limit — and that a well formed agent stays well formed — its cursor
//! between 0 and its program's length.

use vstd::prelude::*;

use crate::exa::{ExaState, ExaView};
use crate::host::find_id;
use crate::instruction::InstructionView;
use crate::register::RegisterView;
use crate::step::{
    arith_val, exa_wf, label_key, peek_source, reg_read, step_assumptions, step_post,
    ArithKind, ResponseView, SourceOutcome, StepErrorView,
};
use crate::text::dec_digits;
use crate::value::{value_text, ValueView};
use crate::world::{world_wf, WorldView};

verus! {

/// Two draws of the file id source never repeat: the counter only grows,
/// and decimal rendering is injective, so the texts differ.
pub proof fn lemma_generated_ids_unique(a: nat, b: nat)
    requires
        a != b,
    ensures
        dec_digits(a) != dec_digits(b),
{
    if dec_digits(a) == dec_digits(b) {
        crate::text::lemma_dec_digits_injective(a, b);
    }
}

/// At most one agent crosses a link per cycle: once a traversal has
/// taken a link, any other agent whose `LINK` resolves to the same link
/// waits, and nothing of it or of the world moves.
pub proof fn lemma_link_exclusive(
    e: ExaView,
    w: WorldView,
    e1: ExaView,
    w1: WorldView,
    r: Result<ResponseView, StepErrorView>,
    gate: ValueView,
    v: ValueView,
)
    requires
        exa_wf(e, w),
        0 <= e.program.cursor < e.program.steps.len(),
        e.program.steps[e.program.cursor].1 == InstructionView::Link(gate),
        peek_source(e, w, gate) == SourceOutcome::Val(v),
        w.hosts[e.host].links.contains_key(value_text(v)),
        w.links[w.hosts[e.host].links[value_text(v)]].occupied,
        step_post(e, w, e1, w1, r),
    ensures
        e1 == (ExaView { state: ExaState::WaitingForLinkToOpen, ..e }),
        w1 == w,
        r == Result::<ResponseView, StepErrorView>::Ok(ResponseView::Link),
{
}

/// Copying a number into a private register and on into another leaves
/// the second register holding that number: two `COPY` steps in a row,
/// the first from a literal, the second through the register written.
pub proof fn lemma_copy_copy(
    e0: ExaView,
    w0: WorldView,
    e1: ExaView,
    w1: WorldView,
    r1: Result<ResponseView, StepErrorView>,
    e2: ExaView,
    w2: WorldView,
    r2: Result<ResponseView, StepErrorView>,
    n: int,
    first: Seq<char>,
    second: Seq<char>,
)
    requires
        exa_wf(e0, w0),
        0 <= e0.program.cursor,
        e0.program.cursor + 1 < e0.program.steps.len(),
        -9999 <= n <= 9999,
        first == "X"@ || first == "T"@,
        second == "X"@ || second == "T"@,
        e0.program.steps[e0.program.cursor].1 == InstructionView::Copy(
            ValueView::Number(n),
            ValueView::RegisterId(first),
        ),
        e0.program.steps[e0.program.cursor + 1].1 == InstructionView::Copy(
            ValueView::RegisterId(first),
            ValueView::RegisterId(second),
        ),
        step_post(e0, w0, e1, w1, r1),
        step_post(e1, w1, e2, w2, r2),
    ensures
        second == "X"@ ==> reg_read(e2.x) == ValueView::Number(n),
        second == "T"@ ==> reg_read(e2.t) == ValueView::Number(n),
{
    reveal_with_fuel(crate::step::commit_sources, 2);
    reveal_strlit("X");
    reveal_strlit("T");
    reveal_strlit("F");
    reveal_strlit("M");
    let lit = ValueView::Number(n);
    assert(seq![lit].drop_first() =~= Seq::<ValueView>::empty());
    assert(crate::step::commit_sources(e0, w0, seq![lit]) == (e0, w0));
    let src2 = ValueView::RegisterId(first);
    assert(first != "F"@) by {
        assert("F"@[0] == 'F');
        if first == "X"@ {
            assert(first[0] == 'X');
        } else {
            assert(first[0] == 'T');
        }
    }
    assert(first != "M"@) by {
        assert("M"@[0] == 'M');
        if first == "X"@ {
            assert(first[0] == 'X');
        } else {
            assert(first[0] == 'T');
        }
    }
    assert(crate::step::commit_source(e1, w1, src2) == (e1, w1));
    assert(seq![src2].drop_first() =~= Seq::<ValueView>::empty());
    assert(crate::step::commit_sources(e1, w1, seq![src2]) == (e1, w1));
    assert("X"@ != "T"@) by {
        assert("X"@[0] == 'X');
        assert("T"@[0] == 'T');
    }
    assert(second != "F"@ && second != "M"@) by {
        assert("F"@[0] == 'F');
        assert("M"@[0] == 'M');
        if second == "X"@ {
            assert(second[0] == 'X');
        } else {
            assert(second[0] == 'T');
        }
    }
}

/// Adding and then subtracting the same number restores the first:
/// `ADDI a b r` followed by `SUBI r b r2` leaves `r2` holding `a`, for
/// all numbers whose sum stays in range.
pub proof fn lemma_add_then_sub(
    e0: ExaView,
    w0: WorldView,
    e1: ExaView,
    w1: WorldView,
    r1: Result<ResponseView, StepErrorView>,
    e2: ExaView,
    w2: WorldView,
    r2: Result<ResponseView, StepErrorView>,
    a: int,
    b: int,
    first: Seq<char>,
    second: Seq<char>,
)
    requires
        exa_wf(e0, w0),
        0 <= e0.program.cursor,
        e0.program.cursor + 1 < e0.program.steps.len(),
        -9999 <= a <= 9999,
        -9999 <= b <= 9999,
        -9999 <= a + b <= 9999,
        first == "X"@ || first == "T"@,
        second == "X"@ || second == "T"@,
        e0.program.steps[e0.program.cursor].1 == InstructionView::Add(
            ValueView::Number(a),
            ValueView::Number(b),
            ValueView::RegisterId(first),
        ),
        e0.program.steps[e0.program.cursor + 1].1 == InstructionView::Subtract(
            ValueView::RegisterId(first),
            ValueView::Number(b),
            ValueView::RegisterId(second),
        ),
        step_post(e0, w0, e1, w1, r1),
        step_post(e1, w1, e2, w2, r2),
    ensures
        second == "X"@ ==> reg_read(e2.x) == ValueView::Number(a),
        second == "T"@ ==> reg_read(e2.t) == ValueView::Number(a),
{
    reveal_with_fuel(crate::step::commit_sources, 3);
    reveal_strlit("X");
    reveal_strlit("T");
    reveal_strlit("F");
    reveal_strlit("M");
    assert(arith_val(ArithKind::Add, a, b) == a + b);
    assert(arith_val(ArithKind::Subtract, a + b, b) == a);
    let la = ValueView::Number(a);
    let lb = ValueView::Number(b);
    assert(seq![la, lb].drop_first() =~= seq![lb]);
    assert(seq![lb].drop_first() =~= Seq::<ValueView>::empty());
    assert(crate::step::commit_sources(e0, w0, seq![la, lb]) == (e0, w0));
    let src2 = ValueView::RegisterId(first);
    assert(first != "F"@) by {
        assert("F"@[0] == 'F');
        if first == "X"@ {
            assert(first[0] == 'X');
        } else {
            assert(first[0] == 'T');
        }
    }
    assert(first != "M"@) by {
        assert("M"@[0] == 'M');
        if first == "X"@ {
            assert(first[0] == 'X');
        } else {
            assert(first[0] == 'T');
        }
    }
    assert(crate::step::commit_source(e1, w1, src2) == (e1, w1));
    assert(seq![src2, lb].drop_first() =~= seq![lb]);
    assert(crate::step::commit_sources(e1, w1, seq![src2, lb]) == (e1, w1));
    assert("X"@ != "T"@) by {
        assert("X"@[0] == 'X');
        assert("T"@[0] == 'T');
    }
    assert(second != "F"@ && second != "M"@) by {
        assert("F"@[0] == 'F');
        assert("M"@[0] == 'M');
        if second == "X"@ {
            assert(second[0] == 'X');
        } else {
            assert(second[0] == 'T');
        }
    }
}

/// The file cursor saturates at both boundaries: a backward seek at the
/// start stays at the start, a forward seek at the end stays at the end,
/// and a backward-then-forward pair from the start lands at the smaller
/// of the distance and the length — the backward half is simply lost.
pub proof fn lemma_seek_boundaries(len: int, k: int)
    requires
        len >= 0,
        k >= 0,
    ensures
        crate::file::seek_target(0, len, -k) == 0,
        crate::file::seek_target(len, len, k) == len,
        crate::file::seek_target(crate::file::seek_target(0, len, -k), len, k) == (if k <= len {
            k
        } else {
            len
        }),
{
}

/// `REPL L; HALT`: the parent's replication yields a child standing at
/// the label with fresh registers and no file, and the parent's `HALT`
/// on the next step frees the parent's slot while the child's remains.
pub proof fn lemma_repl_then_halt(
    e0: ExaView,
    w0: WorldView,
    e1: ExaView,
    w1: WorldView,
    child: ExaView,
    e2: ExaView,
    w2: WorldView,
    r2: Result<ResponseView, StepErrorView>,
    label: ValueView,
)
    requires
        exa_wf(e0, w0),
        world_wf(w0),
        step_assumptions(e0, w0),
        0 <= e0.program.cursor,
        e0.program.cursor + 1 < e0.program.steps.len(),
        e0.program.steps[e0.program.cursor].1 == InstructionView::Replicate(label),
        e0.program.steps[e0.program.cursor + 1].1 == InstructionView::Halt,
        crate::host::host_used(w0.hosts[e0.host]) < w0.hosts[e0.host].occupancy_limit,
        e0.id != crate::exa::child_id_text(e0.id, e0.next_exa_id),
        step_post(e0, w0, e1, w1, Ok(ResponseView::Replicate(child))),
        step_post(e1, w1, e2, w2, r2),
    ensures
        child.program.cursor == e0.program.marks[label_key(label)],
        child.x == (RegisterView { id: "X"@, value: Some(ValueView::Number(0)) }),
        child.file is None,
        r2 == Result::<ResponseView, StepErrorView>::Err(StepErrorView::Halt(e0.id)),
        find_id(w2.hosts[e0.host].occupying_exa_ids, e0.id) is None,
        find_id(w0.hosts[e0.host].occupying_exa_ids, child.id) is None ==> find_id(
            w2.hosts[e0.host].occupying_exa_ids,
            child.id,
        ) is Some,
{
    let h0 = w0.hosts[e0.host];
    let cid = crate::exa::child_id_text(e0.id, e0.next_exa_id);
    let occ1 = w1.hosts[e0.host].occupying_exa_ids;
    assert(crate::host::host_wf(h0));
    if find_id(h0.occupying_exa_ids, cid) is None {
        lemma_find_id_push(h0.occupying_exa_ids, cid);
        crate::host::lemma_find_id_none_all_differ(h0.occupying_exa_ids, cid);
        assert forall|i: int, j: int|
            0 <= i < j < occ1.len() implies #[trigger] occ1[i] != #[trigger] occ1[j] by {
            if j < occ1.len() - 1 {
                assert(occ1[i] == h0.occupying_exa_ids[i]);
                assert(occ1[j] == h0.occupying_exa_ids[j]);
            } else {
                assert(occ1[i] == h0.occupying_exa_ids[i]);
                assert(occ1[j] == cid);
            }
        }
    }
    match find_id(occ1, e0.id) {
        Some(k) => {
            crate::host::lemma_find_id_some(occ1, e0.id);
            lemma_find_id_remove_gone(occ1, e0.id, k);
            if find_id(h0.occupying_exa_ids, cid) is None {
                lemma_find_id_remove_other(occ1, cid, e0.id, k);
            }
        },
        None => {},
    }
}

/// A pushed id is found.
proof fn lemma_find_id_push(s: Seq<Seq<char>>, id: Seq<char>)
    ensures
        find_id(s.push(id), id) is Some,
    decreases s.len(),
{
    if s.len() > 0 && s[0] != id {
        assert(s.push(id).drop_first() =~= s.drop_first().push(id));
        lemma_find_id_push(s.drop_first(), id);
    } else if s.len() > 0 {
    } else {
        assert(s.push(id)[0] == id);
    }
}

/// After removing every occurrence is gone when ids are unique; here it
/// is enough that removing the found position of a unique register
/// leaves the id absent.
proof fn lemma_find_id_remove_gone(s: Seq<Seq<char>>, id: Seq<char>, k: int)
    requires
        find_id(s, id) == Some(k),
        forall|i: int, j: int| 0 <= i < j < s.len() ==> #[trigger] s[i] != #[trigger] s[j],
    ensures
        find_id(s.remove(k), id) is None,
    decreases s.len(),
{
    crate::host::lemma_find_id_some(s, id);
    if find_id(s.remove(k), id) is Some {
        crate::host::lemma_find_id_some(s.remove(k), id);
        let k2 = find_id(s.remove(k), id)->0;
        let orig = if k2 < k {
            k2
        } else {
            k2 + 1
        };
        assert(s.remove(k)[k2] == s[orig]);
        assert(s[orig] == id && s[k] == id && orig != k);
        if orig < k {
            assert(s[orig] != s[k]);
        } else {
            assert(s[k] != s[orig]);
        }
    }
}

/// Removing some other entry does not hide an id.
proof fn lemma_find_id_remove_other(s: Seq<Seq<char>>, id: Seq<char>, other: Seq<char>, k: int)
    requires
        0 <= k < s.len(),
        find_id(s, id) is Some,
        s[k] == other,
        other != id,
    ensures
        find_id(s.remove(k), id) is Some,
{
    crate::host::lemma_find_id_some(s, id);
    let j = find_id(s, id)->0;
    let moved = if j < k {
        j
    } else {
        j - 1
    };
    assert(s.remove(k)[moved] == s[j]);
    lemma_find_id_at(s.remove(k), id, moved);
}

/// An id standing at some position is found.
proof fn lemma_find_id_at(s: Seq<Seq<char>>, id: Seq<char>, j: int)
    requires
        0 <= j < s.len(),
        s[j] == id,
    ensures
        find_id(s, id) is Some,
    decreases j,
{
    if s[0] != id {
        assert(s.drop_first()[j - 1] == id);
        lemma_find_id_at(s.drop_first(), id, j - 1);
    }
}

} // verus!
