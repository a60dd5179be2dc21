//! Runtime logic over the program's heap: printing a value and structural
//! equality, both with cycle detection. The heap is a run of words whose
//! first word sits at byte address `base`.
use vstd::prelude::*;

use crate::text::{decimal, lemma_decimal_round_trip, push_decimal};
use crate::value::{input_spec, FALSE_VAL, NIL_VAL, TRUE_VAL};

verus! {

/// The word index and length of the tuple that a pointer value names, where
/// its header and all its elements lie inside the heap.
pub open spec fn tuple_at(heap: Seq<i64>, base: i64, v: i64) -> Option<(int, int)> {
    let off = v - 1 - base;
    if off >= 0 && off % 8 == 0 && off / 8 < heap.len() && heap[off / 8] >= 0 && off / 8
        + heap[off / 8] / 2 < heap.len() {
        Some((off / 8, heap[off / 8] / 2))
    } else {
        None
    }
}

/// Finds the tuple that a pointer value names.
pub fn tuple_slot(heap: &[i64], base: i64, v: i64) -> (r: Option<(usize, usize)>)
    ensures
        r matches Some(p) ==> tuple_at(heap@, base, v) == Some((p.0 as int, p.1 as int)),
        r is None ==> tuple_at(heap@, base, v) is None,
{
    let off: i128 = v as i128 - 1 - base as i128;
    if off < 0 || off % 8 != 0 {
        return None;
    }
    let idx: i128 = off / 8;
    if idx >= heap.len() as i128 {
        return None;
    }
    let i = idx as usize;
    let h = heap[i];
    if h < 0 {
        return None;
    }
    let len: i128 = (h / 2) as i128;
    if idx + len >= heap.len() as i128 {
        return None;
    }
    Some((i, len as usize))
}

/// The text `print` writes for a value, given the tuples already being
/// printed further out (`seen`). A tuple met again while it is being printed
/// shows as `(...)`; so does one nested deeper than the heap has words, which
/// only a revisit can cause.
pub open spec fn render(heap: Seq<i64>, base: i64, v: i64, seen: Seq<i64>) -> Seq<char>
    decreases heap.len() - seen.len(), 0int,
{
    if v == TRUE_VAL {
        "true"@
    } else if v == FALSE_VAL {
        "false"@
    } else if v % 2 == 0 {
        decimal(v / 2)
    } else if v == NIL_VAL {
        "()"@
    } else if seen.contains(v) || seen.len() >= heap.len() {
        "(...)"@
    } else {
        match tuple_at(heap, base, v) {
            Some((idx, len)) => "("@ + render_elems(heap, base, idx, len, seen.push(v)) + ")"@,
            None => "Unknown value: "@ + decimal(v as int),
        }
    }
}

/// The first `k` elements of the tuple at `idx`, rendered and joined by
/// single spaces.
pub open spec fn render_elems(heap: Seq<i64>, base: i64, idx: int, k: int, seen: Seq<i64>) -> Seq<
    char,
>
    decreases heap.len() - seen.len(), k + 1,
{
    if k <= 0 || idx + k >= heap.len() || seen.len() > heap.len() {
        Seq::empty()
    } else {
        let prev = render_elems(heap, base, idx, k - 1, seen);
        let item = render(heap, base, heap[idx + k], seen);
        if k == 1 {
            item
        } else {
            prev + " "@ + item
        }
    }
}

/// Appends the text of `val` to `out`, keeping `seen` as it was.
pub fn snek_str(val: i64, heap: &[i64], base: i64, seen: &mut Vec<i64>, out: &mut String)
    requires
        old(seen)@.len() <= heap@.len(),
    ensures
        final(seen)@ == old(seen)@,
        final(out)@ == old(out)@ + render(heap@, base, val, old(seen)@),
    decreases heap@.len() - old(seen)@.len(),
{
    if val == TRUE_VAL {
        out.append("true");
    } else if val == FALSE_VAL {
        out.append("false");
    } else if val % 2 == 0 {
        push_decimal(out, val / 2);
    } else if val == NIL_VAL {
        out.append("()");
    } else if vec_contains(seen, val) || seen.len() >= heap.len() {
        out.append("(...)");
    } else {
        match tuple_slot(heap, base, val) {
            Some((idx, len)) => {
                let hl = heap.len();
                assert(idx + len < hl);
                out.append("(");
                let ghost before = out@;
                seen.push(val);
                let ghost inner = seen@;
                let mut k: usize = 0;
                while k < len
                    invariant
                        seen@ == inner,
                        inner == old(seen)@.push(val),
                        inner.len() <= heap@.len(),
                        idx + len < hl,
                        hl == heap@.len(),
                        k <= len,
                        out@ == before + render_elems(heap@, base, idx as int, k as int, inner),
                    decreases len - k,
                {
                    if k > 0 {
                        out.append(" ");
                    }
                    snek_str(heap[idx + k + 1], heap, base, seen, out);
                    k = k + 1;
                    proof {
                        if k == 1 {
                            assert(render_elems(heap@, base, idx as int, 0, inner) =~= Seq::empty());
                        }
                    }
                    assert(out@ =~= before + render_elems(heap@, base, idx as int, k as int, inner));
                }
                seen.pop();
                out.append(")");
                assert(out@ =~= old(out)@ + render(heap@, base, val, old(seen)@));
            },
            None => {
                out.append("Unknown value: ");
                push_decimal(out, val);
                assert(out@ =~= old(out)@ + render(heap@, base, val, old(seen)@));
            },
        }
    }
}

/// Whether `v` holds `x`.
pub fn vec_contains(v: &Vec<i64>, x: i64) -> (r: bool)
    ensures
        r == v@.contains(x),
{
    let mut i: usize = 0;
    while i < v.len()
        invariant
            i <= v@.len(),
            forall|j: int| 0 <= j < i ==> v@[j] != x,
        decreases v@.len() - i,
    {
        if v[i] == x {
            return true;
        }
        i = i + 1;
    }
    false
}

/// The text `print` writes for a value.
pub fn value_text(val: i64, heap: &[i64], base: i64) -> (r: String)
    ensures
        r@ == render(heap@, base, val, Seq::empty()),
{
    let mut seen: Vec<i64> = Vec::new();
    let mut out = String::new();
    snek_str(val, heap, base, &mut seen, &mut out);
    assert(out@ =~= render(heap@, base, val, Seq::empty()));
    out
}

/// Reading back what `print` writes for an integer or a boolean gives the
/// same tagged word.
pub proof fn lemma_print_round_trip(heap: Seq<i64>, base: i64, v: i64, seen: Seq<i64>)
    requires
        v % 2 == 0 || v == TRUE_VAL || v == FALSE_VAL,
    ensures
        input_spec(render(heap, base, v, seen)) == Some(v),
{
    reveal_strlit("true");
    reveal_strlit("false");
    if v != TRUE_VAL && v != FALSE_VAL {
        let n = v / 2;
        lemma_decimal_round_trip(n);
        let t = decimal(n);
        assert(t != "true"@) by {
            assert(t[0] != "true"@[0]);
        }
        assert(t != "false"@) by {
            assert(t[0] != "false"@[0]);
        }
    }
}

/// Structural equality of two values, given the pairs of tuples already
/// being compared further out (`pending`). A pair met again counts as
/// `dflt`; so does a pair nested deeper than there are pairs of heap words,
/// which only a revisit can cause. Atoms are equal when their words are;
/// tuples of different lengths differ; others are compared element by
/// element.
pub open spec fn struct_eq(
    heap: Seq<i64>,
    base: i64,
    dflt: bool,
    v1: i64,
    v2: i64,
    pending: Seq<(i64, i64)>,
) -> bool
    decreases heap.len() * heap.len() - pending.len(), 0int,
{
    if v1 == v2 {
        true
    } else if v1 & 3 == 1 && v2 & 3 == 1 {
        if v1 == NIL_VAL || v2 == NIL_VAL {
            false
        } else if pending.contains((v1, v2)) || pending.len() >= heap.len() * heap.len() {
            dflt
        } else {
            match (tuple_at(heap, base, v1), tuple_at(heap, base, v2)) {
                (Some((i1, l1)), Some((i2, l2))) => if l1 != l2 {
                    false
                } else {
                    eq_elems(heap, base, dflt, i1, i2, l1, pending.push((v1, v2)))
                },
                _ => false,
            }
        }
    } else {
        false
    }
}

/// Whether the first `k` elements of the tuples at `i1` and `i2` are
/// pairwise structurally equal.
pub open spec fn eq_elems(
    heap: Seq<i64>,
    base: i64,
    dflt: bool,
    i1: int,
    i2: int,
    k: int,
    pending: Seq<(i64, i64)>,
) -> bool
    decreases heap.len() * heap.len() - pending.len(), k + 1,
{
    if k <= 0 || i1 + k >= heap.len() || i2 + k >= heap.len() || pending.len() > heap.len()
        * heap.len() {
        true
    } else {
        eq_elems(heap, base, dflt, i1, i2, k - 1, pending) && struct_eq(
            heap,
            base,
            dflt,
            heap[i1 + k],
            heap[i2 + k],
            pending,
        )
    }
}

proof fn lemma_eq_elems_false(
    heap: Seq<i64>,
    base: i64,
    dflt: bool,
    i1: int,
    i2: int,
    k: int,
    m: int,
    pending: Seq<(i64, i64)>,
)
    requires
        0 <= k <= m,
        i1 + m < heap.len(),
        i2 + m < heap.len(),
        !eq_elems(heap, base, dflt, i1, i2, k, pending),
    ensures
        !eq_elems(heap, base, dflt, i1, i2, m, pending),
    decreases m - k,
{
    if k < m {
        lemma_eq_elems_false(heap, base, dflt, i1, i2, k, m - 1, pending);
    }
}

fn pending_contains(v: &Vec<(i64, i64)>, a: i64, b: i64) -> (r: bool)
    ensures
        r == v@.contains((a, b)),
{
    let mut i: usize = 0;
    while i < v.len()
        invariant
            i <= v@.len(),
            forall|j: int| 0 <= j < i ==> v@[j] != (a, b),
        decreases v@.len() - i,
    {
        if v[i].0 == a && v[i].1 == b {
            assert(v@[i as int] == (a, b));
            return true;
        }
        i = i + 1;
    }
    false
}

/// Structural equality of two values, keeping `pending` as it was.
pub fn snek_structural_eq(
    dflt: bool,
    v1: i64,
    v2: i64,
    heap: &[i64],
    base: i64,
    pending: &mut Vec<(i64, i64)>,
) -> (r: bool)
    requires
        old(pending)@.len() <= heap@.len() * heap@.len(),
    ensures
        final(pending)@ == old(pending)@,
        r == struct_eq(heap@, base, dflt, v1, v2, old(pending)@),
    decreases heap@.len() * heap@.len() - old(pending)@.len(),
{
    if v1 == v2 {
        return true;
    }
    if !(v1 & 3 == 1 && v2 & 3 == 1) {
        return false;
    }
    if v1 == NIL_VAL || v2 == NIL_VAL {
        return false;
    }
    let hl = heap.len();
    let pl = pending.len();
    let full = match hl.checked_mul(hl) {
        Some(sq) => pl >= sq,
        None => false,
    };
    assert(full == (pl >= hl * hl));
    if pending_contains(pending, v1, v2) || full {
        return dflt;
    }
    let (i1, l1) = match tuple_slot(heap, base, v1) {
        Some(p) => p,
        None => {
            return false;
        },
    };
    let (i2, l2) = match tuple_slot(heap, base, v2) {
        Some(p) => p,
        None => {
            return false;
        },
    };
    if l1 != l2 {
        return false;
    }
    pending.push((v1, v2));
    let ghost inner = pending@;
    assert(struct_eq(heap@, base, dflt, v1, v2, old(pending)@) == eq_elems(
        heap@,
        base,
        dflt,
        i1 as int,
        i2 as int,
        l1 as int,
        inner,
    ));
    let mut k: usize = 0;
    while k < l1
        invariant
            pending@ == inner,
            inner == old(pending)@.push((v1, v2)),
            inner.len() <= heap@.len() * heap@.len(),
            hl == heap@.len(),
            i1 + l1 < hl,
            i2 + l1 < hl,
            k <= l1,
            eq_elems(heap@, base, dflt, i1 as int, i2 as int, k as int, inner),
            struct_eq(heap@, base, dflt, v1, v2, old(pending)@) == eq_elems(
                heap@,
                base,
                dflt,
                i1 as int,
                i2 as int,
                l1 as int,
                inner,
            ),
        decreases l1 - k,
    {
        let e = snek_structural_eq(dflt, heap[i1 + k + 1], heap[i2 + k + 1], heap, base, pending);
        if !e {
            proof {
                lemma_eq_elems_false(
                    heap@,
                    base,
                    dflt,
                    i1 as int,
                    i2 as int,
                    k + 1,
                    l1 as int,
                    inner,
                );
            }
            assert(!eq_elems(heap@, base, dflt, i1 as int, i2 as int, l1 as int, inner));
            pending.pop();
            assert(pending@ =~= old(pending)@);
            return false;
        }
        k = k + 1;
    }
    pending.pop();
    assert(pending@ =~= old(pending)@);
    true
}

/// Structural equality as the runtime hands it to generated code: the
/// tagged `true` or `false`, where a pair of tuples met again counts as
/// equal.
pub fn snek_structural_eq_true(v1: i64, v2: i64, heap: &[i64], base: i64) -> (r: i64)
    ensures
        r == if struct_eq(heap@, base, true, v1, v2, Seq::empty()) {
            TRUE_VAL
        } else {
            FALSE_VAL
        },
{
    let mut pending: Vec<(i64, i64)> = Vec::new();
    assert(pending@ =~= Seq::<(i64, i64)>::empty());
    if snek_structural_eq(true, v1, v2, heap, base, &mut pending) {
        TRUE_VAL
    } else {
        FALSE_VAL
    }
}

pub open spec fn swap_pairs(p: Seq<(i64, i64)>) -> Seq<(i64, i64)> {
    p.map_values(|q: (i64, i64)| (q.1, q.0))
}

/// Structural equality holds of a value and itself.
pub proof fn lemma_struct_eq_reflexive(
    heap: Seq<i64>,
    base: i64,
    dflt: bool,
    v: i64,
    pending: Seq<(i64, i64)>,
)
    ensures
        struct_eq(heap, base, dflt, v, v, pending),
{
}

/// Structural equality does not depend on the order of its operands, when
/// the pairs being compared are swapped alike.
pub proof fn lemma_struct_eq_symmetric(
    heap: Seq<i64>,
    base: i64,
    dflt: bool,
    v1: i64,
    v2: i64,
    pending: Seq<(i64, i64)>,
)
    ensures
        struct_eq(heap, base, dflt, v1, v2, pending) == struct_eq(
            heap,
            base,
            dflt,
            v2,
            v1,
            swap_pairs(pending),
        ),
    decreases heap.len() * heap.len() - pending.len(), 0int,
{
    let sp = swap_pairs(pending);
    assert(sp.len() == pending.len());
    if v1 != v2 && v1 & 3 == 1 && v2 & 3 == 1 && v1 != NIL_VAL && v2 != NIL_VAL {
        assert(pending.contains((v1, v2)) == sp.contains((v2, v1))) by {
            if pending.contains((v1, v2)) {
                let j = choose|j: int| 0 <= j < pending.len() && pending[j] == (v1, v2);
                assert(sp[j] == (v2, v1));
            }
            if sp.contains((v2, v1)) {
                let j = choose|j: int| 0 <= j < sp.len() && sp[j] == (v2, v1);
                assert(pending[j] == (v1, v2));
            }
        }
        if !pending.contains((v1, v2)) && pending.len() < heap.len() * heap.len() {
            match (tuple_at(heap, base, v1), tuple_at(heap, base, v2)) {
                (Some((i1, l1)), Some((i2, l2))) => {
                    if l1 == l2 {
                        let p1 = pending.push((v1, v2));
                        assert(swap_pairs(p1) =~= sp.push((v2, v1)));
                        lemma_eq_elems_symmetric(heap, base, dflt, i1, i2, l1, p1);
                    }
                },
                _ => {},
            }
        }
    }
}

proof fn lemma_eq_elems_symmetric(
    heap: Seq<i64>,
    base: i64,
    dflt: bool,
    i1: int,
    i2: int,
    k: int,
    pending: Seq<(i64, i64)>,
)
    ensures
        eq_elems(heap, base, dflt, i1, i2, k, pending) == eq_elems(
            heap,
            base,
            dflt,
            i2,
            i1,
            k,
            swap_pairs(pending),
        ),
    decreases heap.len() * heap.len() - pending.len(), k + 1,
{
    assert(swap_pairs(pending).len() == pending.len());
    if !(k <= 0 || i1 + k >= heap.len() || i2 + k >= heap.len() || pending.len() > heap.len()
        * heap.len()) {
        lemma_eq_elems_symmetric(heap, base, dflt, i1, i2, k - 1, pending);
        lemma_struct_eq_symmetric(heap, base, dflt, heap[i1 + k], heap[i2 + k], pending);
    }
}

/// A word that points at a tuple lying inside the heap.
pub open spec fn points_to_tuple(heap: Seq<i64>, base: i64, v: i64) -> bool {
    v & 3 == 1 && v != NIL_VAL && tuple_at(heap, base, v) is Some
}

/// `rk` ranks the tuples it holds below the heap's size, each tuple above
/// every tuple among its elements: the tuples it holds form no cycle.
pub open spec fn ranked(heap: Seq<i64>, base: i64, rk: Map<i64, nat>) -> bool {
    forall|v: i64|
        #![trigger rk[v]]
        rk.contains_key(v) ==> {
            &&& rk[v] < heap.len()
            &&& points_to_tuple(heap, base, v) ==> forall|k: int|
                1 <= k <= tuple_at(heap, base, v)->Some_0.1 && points_to_tuple(
                    heap,
                    base,
                    #[trigger] heap[tuple_at(heap, base, v)->Some_0.0 + k],
                ) ==> rk.contains_key(heap[tuple_at(heap, base, v)->Some_0.0 + k]) && rk[heap[tuple_at(
                    heap,
                    base,
                    v,
                )->Some_0.0 + k]] < rk[v]
        }
}

/// Structural equality without a record of pairs in progress, looking at
/// most `n` tuples deep.
pub open spec fn tree_eq(heap: Seq<i64>, base: i64, v1: i64, v2: i64, n: nat) -> bool
    decreases n, 0int,
{
    if v1 == v2 {
        true
    } else if v1 & 3 == 1 && v2 & 3 == 1 && v1 != NIL_VAL && v2 != NIL_VAL && n > 0 {
        match (tuple_at(heap, base, v1), tuple_at(heap, base, v2)) {
            (Some((i1, l1)), Some((i2, l2))) => l1 == l2 && tree_eq_elems(
                heap,
                base,
                i1,
                i2,
                l1,
                (n - 1) as nat,
            ),
            _ => false,
        }
    } else {
        false
    }
}

pub open spec fn tree_eq_elems(heap: Seq<i64>, base: i64, i1: int, i2: int, k: int, n: nat) -> bool
    decreases n, k + 1,
{
    if k <= 0 || i1 + k >= heap.len() || i2 + k >= heap.len() {
        true
    } else {
        tree_eq_elems(heap, base, i1, i2, k - 1, n) && tree_eq(
            heap,
            base,
            heap[i1 + k],
            heap[i2 + k],
            n,
        )
    }
}

/// The rank of a word: that of the tuple it points at, or none.
pub open spec fn rank_of(heap: Seq<i64>, base: i64, rk: Map<i64, nat>, v: i64) -> int {
    if points_to_tuple(heap, base, v) {
        rk[v] as int
    } else {
        -1
    }
}

proof fn lemma_struct_eq_is_tree_eq(
    heap: Seq<i64>,
    base: i64,
    rk: Map<i64, nat>,
    dflt: bool,
    v1: i64,
    v2: i64,
    pending: Seq<(i64, i64)>,
    n: nat,
)
    requires
        ranked(heap, base, rk),
        heap.len() > 0,
        pending.len() > 0 ==> heap.len() >= 2,
        points_to_tuple(heap, base, v1) ==> rk.contains_key(v1),
        rank_of(heap, base, rk, v1) < n,
        pending.len() + rank_of(heap, base, rk, v1) + 1 <= heap.len(),
        forall|j: int|
            0 <= j < pending.len() ==> points_to_tuple(heap, base, (#[trigger] pending[j]).0)
                && rk.contains_key(pending[j].0) && rank_of(heap, base, rk, pending[j].0)
                > rank_of(heap, base, rk, v1),
    ensures
        struct_eq(heap, base, dflt, v1, v2, pending) == tree_eq(heap, base, v1, v2, n),
    decreases n, 0int,
{
    let len = heap.len();
    if pending.len() > 0 {
        assert(len < len * len) by (nonlinear_arith)
            requires
                len >= 2,
        ;
    } else {
        assert(0 < len * len) by (nonlinear_arith)
            requires
                len >= 1,
        ;
    }
    assert(pending.len() < len * len);
    if v1 != v2 && v1 & 3 == 1 && v2 & 3 == 1 && v1 != NIL_VAL && v2 != NIL_VAL {
        if pending.contains((v1, v2)) {
            let j = choose|j: int| 0 <= j < pending.len() && pending[j] == (v1, v2);
            assert(rank_of(heap, base, rk, pending[j].0) > rank_of(heap, base, rk, v1));
        }
        match (tuple_at(heap, base, v1), tuple_at(heap, base, v2)) {
            (Some((i1, l1)), Some((i2, l2))) => {
                if l1 == l2 {
                    assert(points_to_tuple(heap, base, v1));
                    let p1 = pending.push((v1, v2));
                    assert forall|j: int| 0 <= j < p1.len() implies points_to_tuple(
                        heap,
                        base,
                        (#[trigger] p1[j]).0,
                    ) && rk.contains_key(p1[j].0) && rank_of(heap, base, rk, p1[j].0) >= rk[v1] by {
                        if j < pending.len() {
                            assert(p1[j] == pending[j]);
                        }
                    }
                    lemma_elems_is_tree_eq(heap, base, rk, dflt, v1, i1, i2, l1, p1, (n - 1) as nat);
                }
            },
            _ => {},
        }
    }
}

proof fn lemma_elems_is_tree_eq(
    heap: Seq<i64>,
    base: i64,
    rk: Map<i64, nat>,
    dflt: bool,
    v1: i64,
    i1: int,
    i2: int,
    k: int,
    pending: Seq<(i64, i64)>,
    n: nat,
)
    requires
        ranked(heap, base, rk),
        points_to_tuple(heap, base, v1),
        rk.contains_key(v1),
        tuple_at(heap, base, v1) matches Some((i, l)) && i == i1 && k <= l,
        rk[v1] <= n,
        pending.len() > 0,
        pending.len() + rk[v1] <= heap.len(),
        forall|j: int|
            0 <= j < pending.len() ==> points_to_tuple(heap, base, (#[trigger] pending[j]).0)
                && rk.contains_key(pending[j].0) && rank_of(heap, base, rk, pending[j].0) >= rk[v1],
    ensures
        eq_elems(heap, base, dflt, i1, i2, k, pending) == tree_eq_elems(heap, base, i1, i2, k, n),
    decreases n, k + 1,
{
    let len = heap.len();
    assert(rk[v1] < len);
    assert(len <= len * len) by (nonlinear_arith)
        requires
            len >= 1,
    ;
    if !(k <= 0 || i1 + k >= heap.len() || i2 + k >= heap.len()) {
        lemma_elems_is_tree_eq(heap, base, rk, dflt, v1, i1, i2, k - 1, pending, n);
        let e = heap[i1 + k];
        assert(rk[v1] < heap.len());
        if points_to_tuple(heap, base, e) {
            assert(rk.contains_key(e) && rk[e] < rk[v1]);
        }
        lemma_struct_eq_is_tree_eq(heap, base, rk, dflt, e, heap[i2 + k], pending, n);
    }
}

proof fn lemma_tree_eq_transitive(heap: Seq<i64>, base: i64, a: i64, b: i64, c: i64, n: nat)
    requires
        tree_eq(heap, base, a, b, n),
        tree_eq(heap, base, b, c, n),
    ensures
        tree_eq(heap, base, a, c, n),
    decreases n, 0int,
{
    if a != b && b != c && a != c {
        let (ia, la) = tuple_at(heap, base, a)->Some_0;
        let (ib, lb) = tuple_at(heap, base, b)->Some_0;
        let (ic, lc) = tuple_at(heap, base, c)->Some_0;
        lemma_tree_elems_transitive(heap, base, ia, ib, ic, la, (n - 1) as nat);
    }
}

proof fn lemma_tree_elems_transitive(
    heap: Seq<i64>,
    base: i64,
    ia: int,
    ib: int,
    ic: int,
    k: int,
    n: nat,
)
    requires
        ia + k < heap.len(),
        ib + k < heap.len(),
        ic + k < heap.len(),
        tree_eq_elems(heap, base, ia, ib, k, n),
        tree_eq_elems(heap, base, ib, ic, k, n),
    ensures
        tree_eq_elems(heap, base, ia, ic, k, n),
    decreases n, k + 1,
{
    if k > 0 {
        lemma_tree_elems_transitive(heap, base, ia, ib, ic, k - 1, n);
        lemma_tree_eq_transitive(heap, base, heap[ia + k], heap[ib + k], heap[ic + k], n);
    }
}

/// Structural equality is transitive on values whose tuples form no cycle
/// (as a ranking `rk` of them witnesses).
pub proof fn lemma_struct_eq_transitive(
    heap: Seq<i64>,
    base: i64,
    rk: Map<i64, nat>,
    dflt: bool,
    a: i64,
    b: i64,
    c: i64,
)
    requires
        ranked(heap, base, rk),
        points_to_tuple(heap, base, a) ==> rk.contains_key(a),
        points_to_tuple(heap, base, b) ==> rk.contains_key(b),
        points_to_tuple(heap, base, c) ==> rk.contains_key(c),
        struct_eq(heap, base, dflt, a, b, Seq::empty()),
        struct_eq(heap, base, dflt, b, c, Seq::empty()),
    ensures
        struct_eq(heap, base, dflt, a, c, Seq::empty()),
{
    let n = heap.len();
    let e = Seq::<(i64, i64)>::empty();
    if n == 0 {
        return;
    }
    assert(rk.contains_key(a) ==> rk[a] < n);
    assert(rk.contains_key(b) ==> rk[b] < n);
    lemma_struct_eq_is_tree_eq(heap, base, rk, dflt, a, b, e, n);
    lemma_struct_eq_is_tree_eq(heap, base, rk, dflt, b, c, e, n);
    lemma_struct_eq_is_tree_eq(heap, base, rk, dflt, a, c, e, n);
    lemma_tree_eq_transitive(heap, base, a, b, c, n);
}

/// `r` relates only tuples of equal length whose elements, position by
/// position, are equal words or again related by `r`: the values it
/// relates unfold alike, cycles included.
pub open spec fn bisimulation(heap: Seq<i64>, base: i64, r: Set<(i64, i64)>) -> bool {
    forall|q: (i64, i64)|
        #[trigger] r.contains(q) ==> {
            &&& points_to_tuple(heap, base, q.0)
            &&& points_to_tuple(heap, base, q.1)
            &&& tuple_at(heap, base, q.0)->Some_0.1 == tuple_at(heap, base, q.1)->Some_0.1
            &&& forall|k: int|
                1 <= k <= tuple_at(heap, base, q.0)->Some_0.1 ==> #[trigger] heap[tuple_at(
                    heap,
                    base,
                    q.0,
                )->Some_0.0 + k] == heap[tuple_at(heap, base, q.1)->Some_0.0 + k] || r.contains(
                    (
                        heap[tuple_at(heap, base, q.0)->Some_0.0 + k],
                        heap[tuple_at(heap, base, q.1)->Some_0.0 + k],
                    ),
                )
        }
}

/// Values that a bisimulation relates are structurally equal when a pair
/// met again counts as equal: cyclic values compare equal when they unfold
/// alike.
pub proof fn lemma_struct_eq_bisimilar(
    heap: Seq<i64>,
    base: i64,
    r: Set<(i64, i64)>,
    v1: i64,
    v2: i64,
    pending: Seq<(i64, i64)>,
)
    requires
        bisimulation(heap, base, r),
        v1 == v2 || r.contains((v1, v2)),
    ensures
        struct_eq(heap, base, true, v1, v2, pending),
    decreases heap.len() * heap.len() - pending.len(), 0int,
{
    if v1 != v2 {
        assert(r.contains((v1, v2)));
        if !pending.contains((v1, v2)) && pending.len() < heap.len() * heap.len() {
            let (i1, l1) = tuple_at(heap, base, v1)->Some_0;
            let (i2, l2) = tuple_at(heap, base, v2)->Some_0;
            lemma_elems_bisimilar(heap, base, r, v1, v2, l1, pending.push((v1, v2)));
        }
    }
}

proof fn lemma_elems_bisimilar(
    heap: Seq<i64>,
    base: i64,
    r: Set<(i64, i64)>,
    v1: i64,
    v2: i64,
    k: int,
    pending: Seq<(i64, i64)>,
)
    requires
        bisimulation(heap, base, r),
        r.contains((v1, v2)),
        k <= tuple_at(heap, base, v1)->Some_0.1,
    ensures
        eq_elems(
            heap,
            base,
            true,
            tuple_at(heap, base, v1)->Some_0.0,
            tuple_at(heap, base, v2)->Some_0.0,
            k,
            pending,
        ),
    decreases heap.len() * heap.len() - pending.len(), k + 1,
{
    let i1 = tuple_at(heap, base, v1)->Some_0.0;
    let i2 = tuple_at(heap, base, v2)->Some_0.0;
    if !(k <= 0 || i1 + k >= heap.len() || i2 + k >= heap.len() || pending.len() > heap.len()
        * heap.len()) {
        lemma_elems_bisimilar(heap, base, r, v1, v2, k - 1, pending);
        assert(heap[i1 + k] == heap[i2 + k] || r.contains((heap[i1 + k], heap[i2 + k])));
        lemma_struct_eq_bisimilar(heap, base, r, heap[i1 + k], heap[i2 + k], pending);
    }
}

} // verus!
