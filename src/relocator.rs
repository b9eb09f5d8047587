use vstd::prelude::*;

use crate::issue::{fatal_issue, is_fatal_issue, GeneralIssue, IssuePosition};
use crate::relocation::{
    is_domain_create_command, is_domain_destroy_command,
    is_iteration_head_command, is_iteration_interrupt_command, combined, positions_within, shift_fits,
    shift_reference, shift_target, CommandListModel, RelocatableCommandList, RelocationReference, RelocationReferenceType,
    RelocationTarget, RelocationTargetType,
};

verus! {

/// The least index below `n` at which `p` holds, if there is one.
pub open spec fn least_index(n: int, p: spec_fn(int) -> bool) -> Option<int> {
    if exists|j: int| 0 <= j < n && #[trigger] p(j) && forall|k: int| 0 <= k < j ==> !#[trigger] p(k) {
        Some(choose|j: int| 0 <= j < n && #[trigger] p(j) && forall|k: int| 0 <= k < j ==> !#[trigger] p(k))
    } else {
        None
    }
}

/// The greatest index below `n` at which `p` holds, if there is one.
pub open spec fn greatest_index(n: int, p: spec_fn(int) -> bool) -> Option<int> {
    if exists|j: int| 0 <= j < n && #[trigger] p(j) && forall|k: int| j < k < n ==> !#[trigger] p(k) {
        Some(choose|j: int| 0 <= j < n && #[trigger] p(j) && forall|k: int| j < k < n ==> !#[trigger] p(k))
    } else {
        None
    }
}

/// `j` is the least index at which `p` holds.
pub proof fn lemma_least_index_is(n: int, p: spec_fn(int) -> bool, j: int)
    requires
        0 <= j < n,
        p(j),
        forall|k: int| 0 <= k < j ==> !#[trigger] p(k),
    ensures
        least_index(n, p) == Some(j),
{
    let c = choose|c: int| 0 <= c < n && #[trigger] p(c) && forall|k: int| 0 <= k < c ==> !#[trigger] p(k);
    if c < j {
        assert(!p(c));
    } else if c > j {
        assert(!p(j));
    }
}

/// `p` holds at no index below `n`.
pub proof fn lemma_least_index_none(n: int, p: spec_fn(int) -> bool)
    requires
        forall|k: int| 0 <= k < n ==> !#[trigger] p(k),
    ensures
        least_index(n, p) is None,
{
}

proof fn lemma_greatest_index_none(n: int, p: spec_fn(int) -> bool)
    requires
        forall|k: int| 0 <= k < n ==> !#[trigger] p(k),
    ensures
        greatest_index(n, p) is None,
{
}

proof fn lemma_greatest_index_is(n: int, p: spec_fn(int) -> bool, j: int)
    requires
        0 <= j < n,
        p(j),
        forall|k: int| j < k < n ==> !#[trigger] p(k),
    ensures
        greatest_index(n, p) == Some(j),
{
    let c = choose|c: int| 0 <= c < n && #[trigger] p(c) && forall|k: int| c < k < n ==> !#[trigger] p(k);
    if c < j {
        assert(!p(j));
    } else if c > j {
        assert(!p(c));
    }
}

/// Scope nesting contributed by one reference, counting only those at or after `lo`.
pub open spec fn domain_weight(r: RelocationReference, lo: int) -> int {
    if r.command_array_position >= lo {
        if r.ref_type is DomainCreate {
            1
        } else if r.ref_type is DomainDestroy {
            -1
        } else {
            0
        }
    } else {
        0
    }
}

/// Scopes opened minus scopes closed among `refs[0..j]` at or after `lo`.
pub open spec fn domain_depth(refs: Seq<RelocationReference>, lo: int, j: int) -> int
    decreases j,
{
    if j <= 0 || j > refs.len() {
        0
    } else {
        domain_depth(refs, lo, j - 1) + domain_weight(refs[j - 1], lo)
    }
}

/// Complete scopes closed among `refs[0..j]` at or after `lo`: scope ends that bring the
/// depth back to zero.
pub open spec fn closed_spans(refs: Seq<RelocationReference>, lo: int, j: int) -> int
    decreases j,
{
    if j <= 0 || j > refs.len() {
        0
    } else {
        closed_spans(refs, lo, j - 1) + (if domain_weight(refs[j - 1], lo) == -1 && domain_depth(
            refs,
            lo,
            j,
        ) == 0 {
            1int
        } else {
            0int
        })
    }
}

/// Index of the scope end that closes the scope enclosing position `lo`: the first
/// reference at which more scopes have closed than opened from `lo` on.
pub open spec fn scope_end_index(refs: Seq<RelocationReference>, lo: int) -> Option<int> {
    least_index(refs.len() as int, depth_negative(refs, lo))
}

/// Holds at `j` once more scopes have closed than opened among `refs[0..=j]` from `lo` on.
pub open spec fn depth_negative(refs: Seq<RelocationReference>, lo: int) -> spec_fn(int) -> bool {
    |j: int| domain_depth(refs, lo, j + 1) < 0
}

/// Holds at `j` once `n` complete scopes have closed, or the depth went negative.
pub open spec fn span_stop(refs: Seq<RelocationReference>, lo: int, n: int) -> spec_fn(int) -> bool {
    |j: int| closed_spans(refs, lo, j + 1) == n || domain_depth(refs, lo, j + 1) < 0
}

/// Holds at `j` where `refs[j]` is a scope end.
pub open spec fn destroy_at(refs: Seq<RelocationReference>) -> spec_fn(int) -> bool {
    |j: int| refs[j].ref_type is DomainDestroy
}

/// Loop nesting contributed by one reference after position `p`: a loop head opens a
/// loop, a loop end closes one.
pub open spec fn loop_weight_after(r: RelocationReference, p: int) -> int {
    if r.command_array_position > p {
        if r.ref_type is IterationHead {
            1
        } else if r.ref_type is IterationInterrupt {
            -1
        } else {
            0
        }
    } else {
        0
    }
}

/// Loops opened minus loops closed among `refs[0..j]` after position `p`.
pub open spec fn loop_depth_after(refs: Seq<RelocationReference>, p: int, j: int) -> int
    decreases j,
{
    if j <= 0 || j > refs.len() {
        0
    } else {
        loop_depth_after(refs, p, j - 1) + loop_weight_after(refs[j - 1], p)
    }
}

/// Loop nesting, read backwards, contributed by one reference before position `p`: a
/// loop end opens a loop, a loop head closes one.
pub open spec fn loop_weight_before(r: RelocationReference, p: int) -> int {
    if r.command_array_position < p {
        if r.ref_type is IterationInterrupt {
            1
        } else if r.ref_type is IterationHead {
            -1
        } else {
            0
        }
    } else {
        0
    }
}

/// Loop ends minus loop heads among `refs[j..]` before position `p`.
pub open spec fn loop_depth_before(refs: Seq<RelocationReference>, p: int, j: int) -> int
    decreases refs.len() - j,
{
    if j < 0 || j >= refs.len() {
        0
    } else {
        loop_depth_before(refs, p, j + 1) + loop_weight_before(refs[j], p)
    }
}

/// Holds at `j` once, reading forwards from position `p`, more loops have closed than
/// opened among `refs[0..=j]`.
pub open spec fn loop_end_open(refs: Seq<RelocationReference>, p: int) -> spec_fn(int) -> bool {
    |j: int| loop_depth_after(refs, p, j + 1) < 0
}

/// Holds at `j` once, reading backwards from position `p`, more loops have been entered
/// than left among `refs[j..]`.
pub open spec fn loop_head_open(refs: Seq<RelocationReference>, p: int) -> spec_fn(int) -> bool {
    |j: int| loop_depth_before(refs, p, j) < 0
}

/// Index of the end of the `n`-th complete scope that starts after position `p`.
pub open spec fn span_end_index(refs: Seq<RelocationReference>, p: int, n: int) -> Option<int> {
    let lo = p + 1;
    match least_index(refs.len() as int, span_stop(refs, lo, n)) {
        Some(j) => if n > 0 && domain_depth(refs, lo, j + 1) >= 0 {
            Some(j)
        } else {
            None
        },
        None => None,
    }
}

/// Index of the first scope end of the whole list.
pub open spec fn first_destroy_index(refs: Seq<RelocationReference>) -> Option<int> {
    least_index(refs.len() as int, destroy_at(refs))
}

/// Index of the end mark of the innermost loop that encloses position `p`: the first
/// reference after `p` at which more loops have closed than opened. References are read
/// in list order, which is position order in every list the code generator emits
/// (`generated_well`).
pub open spec fn loop_end_index(refs: Seq<RelocationReference>, p: int) -> Option<int> {
    least_index(refs.len() as int, loop_end_open(refs, p))
}

/// Index of the head mark of the innermost loop that encloses position `p`: reading
/// backwards from `p`, the first loop head that is not matched by a loop end. References
/// are read in list order, as for `loop_end_index`.
pub open spec fn loop_head_index(refs: Seq<RelocationReference>, p: int) -> Option<int> {
    greatest_index(refs.len() as int, loop_head_open(refs, p))
}

/// Signed distance from the hole's position to the reference at index `j`.
pub open spec fn delta_to(refs: Seq<RelocationReference>, j: int, t: RelocationTarget) -> i32 {
    (refs[j].command_array_position - t.command_array_position) as i32
}

/// The address that the first pass gives to `t`, or `None` where it cannot be resolved.
pub open spec fn resolve(refs: Seq<RelocationReference>, t: RelocationTarget) -> Option<i32> {
    let p = t.command_array_position as int;
    match t.relocation_type {
        RelocationTargetType::Relative(x) => Some(x),
        RelocationTargetType::DomainHead => match scope_end_index(refs, p) {
            Some(j) => Some(delta_to(refs, j, t)),
            None => None,
        },
        RelocationTargetType::BreakDomain(_) => match first_destroy_index(refs) {
            Some(j) => Some(delta_to(refs, j, t)),
            None => None,
        },
        RelocationTargetType::IgnoreDomain(n) => match span_end_index(refs, p, n as int) {
            Some(j) => Some(delta_to(refs, j, t)),
            None => None,
        },
        RelocationTargetType::EnterFunction(_) => Some(t.relocated_address),
        RelocationTargetType::BreakIteration => match loop_end_index(refs, p) {
            Some(j) => Some(delta_to(refs, j, t)),
            None => None,
        },
        RelocationTargetType::IterationHead => match loop_head_index(refs, p) {
            Some(j) => Some(delta_to(refs, j, t)),
            None => None,
        },
        RelocationTargetType::Undefined => None,
    }
}

/// The kind of reference that a target of the given type must land on.
pub open spec fn expected_reference(tt: RelocationTargetType, rt: RelocationReferenceType) -> bool {
    match tt {
        RelocationTargetType::DomainHead => rt is DomainDestroy,
        RelocationTargetType::BreakDomain(_) => rt is DomainDestroy,
        RelocationTargetType::IgnoreDomain(_) => rt is DomainDestroy,
        RelocationTargetType::BreakIteration => rt is IterationInterrupt,
        RelocationTargetType::IterationHead => rt is IterationHead,
        _ => true,
    }
}

/// A target that the first pass resolves is not `Undefined`, and, unless it is a call
/// or an already known delta, its address, taken as a signed delta from its own
/// position, lands on a reference of the kind its type asks for.
pub proof fn lemma_resolved_lands_on_reference(refs: Seq<RelocationReference>, t: RelocationTarget)
    requires
        resolve(refs, t) is Some,
        t.command_array_position <= i32::MAX,
        forall|i: int| 0 <= i < refs.len() ==> refs[i].command_array_position <= i32::MAX,
    ensures
        !(t.relocation_type is Undefined),
        !(t.relocation_type is EnterFunction) && !(t.relocation_type is Relative) ==> exists|k: int|
            0 <= k < refs.len() && refs[k].command_array_position == t.command_array_position + resolve(
                refs,
                t,
            )->Some_0 && expected_reference(t.relocation_type, #[trigger] refs[k].ref_type),
{
    let p = t.command_array_position as int;
    match t.relocation_type {
        RelocationTargetType::DomainHead => {
            let j = scope_end_index(refs, p)->Some_0;
            let q = depth_negative(refs, p);
            assert(0 <= j < refs.len() && q(j));
            if j > 0 {
                assert(!q(j - 1));
            }
            assert(domain_depth(refs, p, j + 1) == domain_depth(refs, p, j) + domain_weight(refs[j], p));
            assert(domain_weight(refs[j], p) < 0);
            assert(expected_reference(t.relocation_type, refs[j].ref_type));
        },
        RelocationTargetType::BreakDomain(_) => {
            let j = first_destroy_index(refs)->Some_0;
            assert(destroy_at(refs)(j));
            assert(expected_reference(t.relocation_type, refs[j].ref_type));
        },
        RelocationTargetType::IgnoreDomain(n) => {
            let lo = p + 1;
            let q = span_stop(refs, lo, n as int);
            let j = least_index(refs.len() as int, q)->Some_0;
            assert(0 <= j < refs.len() && q(j));
            assert(n > 0 && domain_depth(refs, lo, j + 1) >= 0);
            if j > 0 {
                assert(!q(j - 1));
            } else {
                assert(closed_spans(refs, lo, 0) == 0);
            }
            assert(closed_spans(refs, lo, j + 1) == closed_spans(refs, lo, j) + (if domain_weight(refs[j], lo) == -1
                && domain_depth(refs, lo, j + 1) == 0 {
                1int
            } else {
                0int
            }));
            assert(domain_weight(refs[j], lo) == -1);
            assert(expected_reference(t.relocation_type, refs[j].ref_type));
        },
        RelocationTargetType::BreakIteration => {
            let j = loop_end_index(refs, p)->Some_0;
            let q = loop_end_open(refs, p);
            assert(0 <= j < refs.len() && q(j));
            if j > 0 {
                assert(!q(j - 1));
            }
            assert(loop_depth_after(refs, p, j + 1) == loop_depth_after(refs, p, j) + loop_weight_after(refs[j], p));
            assert(expected_reference(t.relocation_type, refs[j].ref_type));
        },
        RelocationTargetType::IterationHead => {
            let j = loop_head_index(refs, p)->Some_0;
            let q = loop_head_open(refs, p);
            assert(0 <= j < refs.len() && q(j));
            if j + 1 < refs.len() {
                assert(!q(j + 1));
            }
            assert(loop_depth_before(refs, p, j) == loop_depth_before(refs, p, j + 1) + loop_weight_before(refs[j], p));
            assert(expected_reference(t.relocation_type, refs[j].ref_type));
        },
        _ => {},
    }
}

proof fn lemma_least_index_extends(n: int, m: int, p: spec_fn(int) -> bool, q: spec_fn(int) -> bool)
    requires
        0 <= n <= m,
        least_index(n, p) is Some,
        forall|k: int| 0 <= k < n ==> #[trigger] p(k) == q(k),
    ensures
        least_index(m, q) == least_index(n, p),
{
    let j = least_index(n, p)->Some_0;
    assert(0 <= j < n && p(j) && forall|k: int| 0 <= k < j ==> !#[trigger] p(k));
    assert forall|k: int| 0 <= k < j implies !#[trigger] q(k) by {
        assert(!p(k));
    }
    lemma_least_index_is(m, q, j);
}

proof fn lemma_greatest_index_extends(n: int, m: int, p: spec_fn(int) -> bool, q: spec_fn(int) -> bool)
    requires
        0 <= n <= m,
        greatest_index(n, p) is Some,
        forall|k: int| 0 <= k < n ==> #[trigger] p(k) == q(k),
        forall|k: int| n <= k < m ==> !#[trigger] q(k),
    ensures
        greatest_index(m, q) == greatest_index(n, p),
{
    let j = greatest_index(n, p)->Some_0;
    assert(0 <= j < n && p(j) && forall|k: int| j < k < n ==> !#[trigger] p(k));
    assert forall|k: int| j < k < m implies !#[trigger] q(k) by {
        if k < n {
            assert(!p(k));
        }
    }
    lemma_greatest_index_is(m, q, j);
}

proof fn lemma_depth_prefix_at(s: Seq<RelocationReference>, t: Seq<RelocationReference>, lo: int, k: int)
    requires
        0 <= k <= s.len(),
    ensures
        domain_depth(s + t, lo, k) == domain_depth(s, lo, k),
        closed_spans(s + t, lo, k) == closed_spans(s, lo, k),
    decreases k,
{
    if k > 0 {
        lemma_depth_prefix_at(s, t, lo, k - 1);
        assert((s + t)[k - 1] == s[k - 1]);
    }
}

proof fn lemma_loop_after_prefix(s: Seq<RelocationReference>, t: Seq<RelocationReference>, p: int, k: int)
    requires
        0 <= k <= s.len(),
    ensures
        loop_depth_after(s + t, p, k) == loop_depth_after(s, p, k),
    decreases k,
{
    if k > 0 {
        lemma_loop_after_prefix(s, t, p, k - 1);
        assert((s + t)[k - 1] == s[k - 1]);
    }
}

proof fn lemma_loop_after_silent_prefix(s: Seq<RelocationReference>, t: Seq<RelocationReference>, p: int, k: int)
    requires
        forall|i: int| 0 <= i < s.len() ==> loop_weight_after(#[trigger] s[i], p) == 0,
        0 <= k <= s.len(),
    ensures
        loop_depth_after(s + t, p, k) == 0,
    decreases k,
{
    if k > 0 {
        lemma_loop_after_silent_prefix(s, t, p, k - 1);
        assert((s + t)[k - 1] == s[k - 1]);
    }
}

proof fn lemma_loop_after_silent(s: Seq<RelocationReference>, t: Seq<RelocationReference>, p: int, k: int)
    requires
        forall|i: int| 0 <= i < s.len() ==> loop_weight_after(#[trigger] s[i], p) == 0,
        0 <= k <= t.len(),
    ensures
        loop_depth_after(s + t, p, s.len() + k) == loop_depth_after(t, p, k),
    decreases k,
{
    if k == 0 {
        lemma_loop_after_silent_prefix(s, t, p, s.len() as int);
    } else {
        lemma_loop_after_silent(s, t, p, k - 1);
        assert((s + t)[s.len() + k - 1] == t[k - 1]);
    }
}

proof fn lemma_loop_after_shifted(t: Seq<RelocationReference>, base: int, p: int, k: int)
    requires
        base >= 0,
        0 <= k <= t.len(),
        forall|i: int| 0 <= i < t.len() ==> (#[trigger] t[i]).command_array_position + base <= usize::MAX,
    ensures
        loop_depth_after(t.map_values(|r: RelocationReference| shift_reference(r, base)), p + base, k)
            == loop_depth_after(t, p, k),
    decreases k,
{
    if k > 0 {
        lemma_loop_after_shifted(t, base, p, k - 1);
        let ts = t.map_values(|r: RelocationReference| shift_reference(r, base));
        assert(loop_weight_after(ts[k - 1], p + base) == loop_weight_after(t[k - 1], p));
    }
}

proof fn lemma_loop_before_concat(s: Seq<RelocationReference>, t: Seq<RelocationReference>, p: int, k: int)
    requires
        0 <= k <= t.len(),
    ensures
        loop_depth_before(s + t, p, s.len() + k) == loop_depth_before(t, p, k),
    decreases t.len() - k,
{
    if k < t.len() {
        lemma_loop_before_concat(s, t, p, k + 1);
        assert((s + t)[s.len() + k] == t[k]);
    }
}

proof fn lemma_loop_before_prefix(s: Seq<RelocationReference>, t: Seq<RelocationReference>, p: int, k: int)
    requires
        0 <= k <= s.len(),
    ensures
        loop_depth_before(s + t, p, k) == loop_depth_before(s, p, k) + loop_depth_before(t, p, 0),
    decreases s.len() - k,
{
    if k == s.len() {
        lemma_loop_before_concat(s, t, p, 0);
    } else {
        lemma_loop_before_prefix(s, t, p, k + 1);
        assert((s + t)[k] == s[k]);
    }
}

proof fn lemma_loop_before_silent(t: Seq<RelocationReference>, p: int, k: int)
    requires
        forall|i: int| 0 <= i < t.len() ==> loop_weight_before(#[trigger] t[i], p) == 0,
        0 <= k <= t.len(),
    ensures
        loop_depth_before(t, p, k) == 0,
    decreases t.len() - k,
{
    if k < t.len() {
        lemma_loop_before_silent(t, p, k + 1);
    }
}

proof fn lemma_loop_before_shifted(t: Seq<RelocationReference>, base: int, p: int, k: int)
    requires
        base >= 0,
        0 <= k <= t.len(),
        forall|i: int| 0 <= i < t.len() ==> (#[trigger] t[i]).command_array_position + base <= usize::MAX,
    ensures
        loop_depth_before(t.map_values(|r: RelocationReference| shift_reference(r, base)), p + base, k)
            == loop_depth_before(t, p, k),
    decreases t.len() - k,
{
    if k < t.len() {
        lemma_loop_before_shifted(t, base, p, k + 1);
        let ts = t.map_values(|r: RelocationReference| shift_reference(r, base));
        assert(loop_weight_before(ts[k], p + base) == loop_weight_before(t[k], p));
    }
}

/// Appending another list after `x` leaves the first pass's result unchanged for every
/// target of `x` that resolves within `x`.
pub proof fn lemma_append_keeps_resolution(x: CommandListModel, y: CommandListModel, i: int)
    requires
        positions_within(x),
        shift_fits(y, x.commands.len() as int),
        0 <= i < x.targets.len(),
        resolve(x.references, x.targets[i]) is Some,
    ensures
        combined(x, y).targets[i] == x.targets[i],
        resolve(combined(x, y).references, combined(x, y).targets[i]) == resolve(x.references, x.targets[i]),
{
    let c = combined(x, y);
    let t = x.targets[i];
    let p = t.command_array_position as int;
    let xr = x.references;
    let base = x.commands.len() as int;
    let ys = y.references.map_values(|r: RelocationReference| shift_reference(r, base));
    let all = xr + ys;
    assert(c.targets[i] == t);
    assert(c.references == all);
    assert(p <= base);
    assert forall|k: int| 0 <= k < xr.len() implies #[trigger] all[k] == xr[k] by {}
    assert forall|k: int| xr.len() <= k < all.len() implies (#[trigger] all[k]).command_array_position >= base by {
        assert(all[k] == shift_reference(y.references[k - xr.len()], base));
    }
    match t.relocation_type {
        RelocationTargetType::DomainHead => {
            assert forall|k: int| 0 <= k < xr.len() implies #[trigger] depth_negative(xr, p)(k) == depth_negative(all, p)(k) by {
                lemma_depth_prefix_at(xr, ys, p, k + 1);
            }
            lemma_least_index_extends(xr.len() as int, all.len() as int, depth_negative(xr, p), depth_negative(all, p));
        },
        RelocationTargetType::BreakDomain(_) => {
            lemma_least_index_extends(xr.len() as int, all.len() as int, destroy_at(xr), destroy_at(all));
        },
        RelocationTargetType::IgnoreDomain(n) => {
            let lo = p + 1;
            assert forall|k: int| 0 <= k < xr.len() implies #[trigger] span_stop(xr, lo, n as int)(k) == span_stop(all, lo, n as int)(k) by {
                lemma_depth_prefix_at(xr, ys, lo, k + 1);
            }
            lemma_least_index_extends(
                xr.len() as int,
                all.len() as int,
                span_stop(xr, lo, n as int),
                span_stop(all, lo, n as int),
            );
            let j = least_index(xr.len() as int, span_stop(xr, lo, n as int))->Some_0;
            lemma_depth_prefix_at(xr, ys, lo, j + 1);
        },
        RelocationTargetType::BreakIteration => {
            assert forall|k: int| 0 <= k < xr.len() implies #[trigger] loop_end_open(xr, p)(k) == loop_end_open(all, p)(k) by {
                lemma_loop_after_prefix(xr, ys, p, k + 1);
            }
            lemma_least_index_extends(xr.len() as int, all.len() as int, loop_end_open(xr, p), loop_end_open(all, p));
        },
        RelocationTargetType::IterationHead => {
            assert forall|k: int| 0 <= k < ys.len() implies loop_weight_before(#[trigger] ys[k], p) == 0 by {
                assert(all[xr.len() + k] == ys[k]);
            }
            assert forall|k: int| xr.len() <= k < all.len() implies !#[trigger] loop_head_open(all, p)(k) by {
                lemma_loop_before_concat(xr, ys, p, k - xr.len());
                lemma_loop_before_silent(ys, p, k - xr.len());
            }
            assert forall|k: int| 0 <= k < xr.len() implies #[trigger] loop_head_open(xr, p)(k) == loop_head_open(all, p)(k) by {
                lemma_loop_before_prefix(xr, ys, p, k);
                lemma_loop_before_silent(ys, p, 0);
            }
            lemma_greatest_index_extends(xr.len() as int, all.len() as int, loop_head_open(xr, p), loop_head_open(all, p));
        },
        _ => {},
    }
}

proof fn lemma_least_index_offset(m: int, n: int, p: spec_fn(int) -> bool, q: spec_fn(int) -> bool)
    requires
        0 <= m,
        0 <= n,
        forall|k: int| 0 <= k < m ==> !#[trigger] p(k),
        forall|k: int| 0 <= k < n ==> #[trigger] p(m + k) == q(k),
    ensures
        least_index(m + n, p) == match least_index(n, q) {
            Some(j) => Some(m + j),
            None => None::<int>,
        },
{
    match least_index(n, q) {
        Some(j) => {
            assert(0 <= j < n && q(j) && forall|k: int| 0 <= k < j ==> !#[trigger] q(k));
            assert(p(m + j));
            assert forall|k: int| 0 <= k < m + j implies !#[trigger] p(k) by {
                if k >= m {
                    assert(p(m + (k - m)) == q(k - m));
                }
            }
            lemma_least_index_is(m + n, p, m + j);
        },
        None => {
            assert forall|k: int| 0 <= k < m + n implies !#[trigger] p(k) by {
                if k >= m {
                    assert(p(m + (k - m)) == q(k - m));
                    if q(k - m) {
                        let w = k - m;
                        if !(exists|j: int| 0 <= j < n && #[trigger] q(j) && forall|i: int| 0 <= i < j ==> !#[trigger] q(i)) {
                            lemma_least_exists(n, q, w);
                        }
                    }
                }
            }
            lemma_least_index_none(m + n, p);
        },
    }
}

proof fn lemma_least_exists(n: int, q: spec_fn(int) -> bool, w: int)
    requires
        0 <= w < n,
        q(w),
    ensures
        exists|j: int| 0 <= j < n && #[trigger] q(j) && forall|i: int| 0 <= i < j ==> !#[trigger] q(i),
    decreases w,
{
    if exists|i: int| 0 <= i < w && #[trigger] q(i) {
        let i = choose|i: int| 0 <= i < w && #[trigger] q(i);
        lemma_least_exists(n, q, i);
    } else {
        assert(forall|i: int| 0 <= i < w ==> !#[trigger] q(i));
    }
}

proof fn lemma_greatest_index_offset(m: int, n: int, p: spec_fn(int) -> bool, q: spec_fn(int) -> bool)
    requires
        0 <= m,
        0 <= n,
        forall|k: int| 0 <= k < n ==> #[trigger] p(m + k) == q(k),
        greatest_index(n, q) is Some,
    ensures
        greatest_index(m + n, p) == Some(m + greatest_index(n, q)->Some_0),
{
    let j = greatest_index(n, q)->Some_0;
    assert(0 <= j < n && q(j) && forall|k: int| j < k < n ==> !#[trigger] q(k));
    assert(p(m + j));
    assert forall|k: int| m + j < k < m + n implies !#[trigger] p(k) by {
        assert(p(m + (k - m)) == q(k - m));
    }
    lemma_greatest_index_is(m + n, p, m + j);
}

proof fn lemma_depth_after_silent(s: Seq<RelocationReference>, t: Seq<RelocationReference>, lo: int, k: int)
    requires
        forall|i: int| 0 <= i < s.len() ==> domain_weight(#[trigger] s[i], lo) == 0,
        0 <= k <= t.len(),
    ensures
        domain_depth(s + t, lo, s.len() + k) == domain_depth(t, lo, k),
        closed_spans(s + t, lo, s.len() + k) == closed_spans(t, lo, k),
    decreases k,
{
    if k == 0 {
        lemma_silent_prefix(s, t, lo, s.len() as int);
    } else {
        lemma_depth_after_silent(s, t, lo, k - 1);
        assert((s + t)[s.len() + k - 1] == t[k - 1]);
    }
}

proof fn lemma_silent_prefix(s: Seq<RelocationReference>, t: Seq<RelocationReference>, lo: int, k: int)
    requires
        forall|i: int| 0 <= i < s.len() ==> domain_weight(#[trigger] s[i], lo) == 0,
        0 <= k <= s.len(),
    ensures
        domain_depth(s + t, lo, k) == 0,
        closed_spans(s + t, lo, k) == 0,
    decreases k,
{
    if k > 0 {
        lemma_silent_prefix(s, t, lo, k - 1);
        assert((s + t)[k - 1] == s[k - 1]);
    }
}

proof fn lemma_depth_shifted(t: Seq<RelocationReference>, base: int, lo: int, k: int)
    requires
        base >= 0,
        0 <= k <= t.len(),
        forall|i: int| 0 <= i < t.len() ==> (#[trigger] t[i]).command_array_position + base <= usize::MAX,
    ensures
        domain_depth(t.map_values(|r: RelocationReference| shift_reference(r, base)), lo + base, k)
            == domain_depth(t, lo, k),
        closed_spans(t.map_values(|r: RelocationReference| shift_reference(r, base)), lo + base, k)
            == closed_spans(t, lo, k),
    decreases k,
{
    if k > 0 {
        lemma_depth_shifted(t, base, lo, k - 1);
        let ts = t.map_values(|r: RelocationReference| shift_reference(r, base));
        assert(domain_weight(ts[k - 1], lo + base) == domain_weight(t[k - 1], lo));
    }
}

/// Prepending another list `a` before `b` leaves the first pass's result unchanged for
/// every target of `b` that resolves within `b`, when `a`'s scope references lie before
/// its end; the one exception is a jump out of an if/elif chain, which resolves to the
/// first scope end of the whole list and so may land inside `a`.
#[verifier::rlimit(100)]
pub proof fn lemma_prepend_keeps_resolution(a: CommandListModel, b: CommandListModel, i: int)
    requires
        positions_within(a),
        forall|k: int|
            0 <= k < a.references.len() && ((#[trigger] a.references[k]).ref_type is DomainCreate
                || a.references[k].ref_type is DomainDestroy) ==> a.references[k].command_array_position
                < a.commands.len(),
        shift_fits(b, a.commands.len() as int),
        0 <= i < b.targets.len(),
        resolve(b.references, b.targets[i]) is Some,
        !(b.targets[i].relocation_type is BreakDomain),
    ensures
        combined(a, b).targets[a.targets.len() + i] == shift_target(b.targets[i], a.commands.len() as int),
        resolve(combined(a, b).references, combined(a, b).targets[a.targets.len() + i]) == resolve(
            b.references,
            b.targets[i],
        ),
{
    let base = a.commands.len() as int;
    let c = combined(a, b);
    let t = b.targets[i];
    let ts = c.targets[a.targets.len() + i];
    let p = t.command_array_position as int;
    let ar = a.references;
    let br = b.references;
    let bs = br.map_values(|r: RelocationReference| shift_reference(r, base));
    let all = ar + bs;
    let m = ar.len() as int;
    let n = br.len() as int;
    assert(c.references == all);
    assert(ts == shift_target(t, base));
    assert(ts.command_array_position == p + base);
    assert forall|k: int| 0 <= k < n implies #[trigger] all[m + k] == shift_reference(br[k], base) by {}
    assert forall|k: int| 0 <= k < n implies (#[trigger] br[k]).command_array_position + base <= usize::MAX by {}
    assert forall|k: int| 0 <= k < m implies (#[trigger] all[k]) == ar[k] by {}
    assert forall|k: int| 0 <= k < m implies (#[trigger] ar[k]).command_array_position <= base by {}
    match t.relocation_type {
        RelocationTargetType::DomainHead => {
            let lo = p + base;
            assert forall|k: int| 0 <= k < ar.len() implies domain_weight(#[trigger] ar[k], lo) == 0 by {}
            assert forall|k: int| 0 <= k < m implies !#[trigger] depth_negative(all, lo)(k) by {
                lemma_silent_prefix(ar, bs, lo, k + 1);
            }
            assert forall|k: int| 0 <= k < n implies #[trigger] depth_negative(all, lo)(m + k) == depth_negative(br, p)(k) by {
                lemma_depth_after_silent(ar, bs, lo, k + 1);
                lemma_depth_shifted(br, base, p, k + 1);
            }
            lemma_least_index_offset(m, n, depth_negative(all, lo), depth_negative(br, p));
        },
        RelocationTargetType::IgnoreDomain(cnt) => {
            let lo = p + base + 1;
            assert forall|k: int| 0 <= k < ar.len() implies domain_weight(#[trigger] ar[k], lo) == 0 by {}
            assert forall|k: int| 0 <= k < m implies !#[trigger] span_stop(all, lo, cnt as int)(k) by {
                lemma_silent_prefix(ar, bs, lo, k + 1);
            }
            assert forall|k: int| 0 <= k < n implies #[trigger] span_stop(all, lo, cnt as int)(m + k) == span_stop(
                br,
                p + 1,
                cnt as int,
            )(k) by {
                lemma_depth_after_silent(ar, bs, lo, k + 1);
                lemma_depth_shifted(br, base, p + 1, k + 1);
            }
            lemma_least_index_offset(m, n, span_stop(all, lo, cnt as int), span_stop(br, p + 1, cnt as int));
            let j = least_index(n, span_stop(br, p + 1, cnt as int))->Some_0;
            lemma_depth_after_silent(ar, bs, lo, j + 1);
            lemma_depth_shifted(br, base, p + 1, j + 1);
        },
        RelocationTargetType::BreakIteration => {
            let lo = p + base;
            assert forall|k: int| 0 <= k < ar.len() implies loop_weight_after(#[trigger] ar[k], lo) == 0 by {}
            assert forall|k: int| 0 <= k < m implies !#[trigger] loop_end_open(all, lo)(k) by {
                lemma_loop_after_silent_prefix(ar, bs, lo, k + 1);
            }
            assert forall|k: int| 0 <= k < n implies #[trigger] loop_end_open(all, lo)(m + k) == loop_end_open(br, p)(k) by {
                lemma_loop_after_silent(ar, bs, lo, k + 1);
                lemma_loop_after_shifted(br, base, p, k + 1);
            }
            lemma_least_index_offset(m, n, loop_end_open(all, lo), loop_end_open(br, p));
        },
        RelocationTargetType::IterationHead => {
            let lo = p + base;
            assert forall|k: int| 0 <= k < n implies #[trigger] loop_head_open(all, lo)(m + k) == loop_head_open(br, p)(k) by {
                lemma_loop_before_concat(ar, bs, lo, k);
                lemma_loop_before_shifted(br, base, p, k);
            }
            lemma_greatest_index_offset(m, n, loop_head_open(all, lo), loop_head_open(br, p));
        },
        _ => {},
    }
}

/// `t` with its address replaced.
pub open spec fn with_address(t: RelocationTarget, a: i32) -> RelocationTarget {
    RelocationTarget {
        relocation_type: t.relocation_type,
        command_array_position: t.command_array_position,
        offset: t.offset,
        relocated_address: a,
    }
}

/// Every position is small enough for a signed 32-bit delta.
pub open spec fn addresses_fit(m: CommandListModel) -> bool {
    &&& forall|i: int| 0 <= i < m.targets.len() ==> m.targets[i].command_array_position <= i32::MAX
    &&& forall|i: int| 0 <= i < m.references.len() ==> m.references[i].command_array_position <= i32::MAX
}

/// The targets after the first pass, where every one of them resolves.
pub open spec fn resolved_targets(m: CommandListModel, out: Seq<RelocationTarget>) -> bool {
    &&& out.len() == m.targets.len()
    &&& forall|i: int|
        0 <= i < out.len() ==> resolve(m.references, #[trigger] m.targets[i]) is Some && out[i]
            == with_address(m.targets[i], resolve(m.references, m.targets[i])->Some_0)
}

/// Some target of `m` cannot be resolved.
pub open spec fn has_unresolvable(m: CommandListModel) -> bool {
    exists|i: int| 0 <= i < m.targets.len() && resolve(m.references, #[trigger] m.targets[i]) is None
}

fn delta(refs: &Vec<RelocationReference>, j: usize, t: &RelocationTarget) -> (r: i32)
    requires
        j < refs@.len(),
        refs@[j as int].command_array_position <= i32::MAX,
        t.command_array_position <= i32::MAX,
    ensures
        r == delta_to(refs@, j as int, *t),
{
    (refs[j].command_array_position as i32) - (t.command_array_position as i32)
}

fn find_scope_end(refs: &Vec<RelocationReference>, lo: usize) -> (r: Option<usize>)
    ensures
        match r {
            Some(j) => scope_end_index(refs@, lo as int) == Some(j as int),
            None => scope_end_index(refs@, lo as int) is None,
        },
{
    let ghost p = depth_negative(refs@, lo as int);
    let mut depth: usize = 0;
    let mut j: usize = 0;
    while j < refs.len()
        invariant
            p == depth_negative(refs@, lo as int),
            j <= refs@.len(),
            depth as int == domain_depth(refs@, lo as int, j as int),
            depth <= j,
            forall|k: int| 0 <= k < j ==> !#[trigger] p(k),
        decreases refs@.len() - j,
    {
        let r = &refs[j];
        if r.command_array_position >= lo {
            if is_domain_create_command(r) {
                depth = depth + 1;
            } else if is_domain_destroy_command(r) {
                {
                    if depth == 0 {
                        proof {
                            lemma_least_index_is(refs@.len() as int, p, j as int);
                        }
                        return Some(j);
                    }
                    depth = depth - 1;
                }
            }
        }
        j += 1;
    }
    proof {
        lemma_least_index_none(refs@.len() as int, p);
    }
    None
}

fn find_span_end(refs: &Vec<RelocationReference>, p: usize, n: usize) -> (r: Option<usize>)
    requires
        p < usize::MAX,
    ensures
        match r {
            Some(j) => span_end_index(refs@, p as int, n as int) == Some(j as int),
            None => span_end_index(refs@, p as int, n as int) is None,
        },
{
    let lo = p + 1;
    let ghost q = span_stop(refs@, lo as int, n as int);
    let mut depth: usize = 0;
    let mut closed: usize = 0;
    let mut j: usize = 0;
    while j < refs.len()
        invariant
            q == span_stop(refs@, lo as int, n as int),
            lo == p + 1,
            j <= refs@.len(),
            depth as int == domain_depth(refs@, lo as int, j as int),
            closed as int == closed_spans(refs@, lo as int, j as int),
            depth <= j,
            closed <= j,
            j > 0 ==> !q(j - 1),
            forall|k: int| 0 <= k < j ==> !#[trigger] q(k),
        decreases refs@.len() - j,
    {
        let r = &refs[j];
        if r.command_array_position >= lo {
            if is_domain_create_command(r) {
                depth = depth + 1;
            } else if is_domain_destroy_command(r) {
                {
                    if depth == 0 {
                        proof {
                            lemma_least_index_is(refs@.len() as int, q, j as int);
                        }
                        return None;
                    }
                    depth = depth - 1;
                    if depth == 0 {
                        closed = closed + 1;
                    }
                }
            }
        }
        if closed == n && n > 0 {
            proof {
                lemma_least_index_is(refs@.len() as int, q, j as int);
            }
            return Some(j);
        }
        if closed == n {
            proof {
                lemma_least_index_is(refs@.len() as int, q, j as int);
            }
            return None;
        }
        j += 1;
    }
    proof {
        lemma_least_index_none(refs@.len() as int, q);
    }
    None
}

fn find_first_destroy(refs: &Vec<RelocationReference>) -> (r: Option<usize>)
    ensures
        match r {
            Some(j) => first_destroy_index(refs@) == Some(j as int),
            None => first_destroy_index(refs@) is None,
        },
{
    let ghost q = destroy_at(refs@);
    let mut j: usize = 0;
    while j < refs.len()
        invariant
            q == destroy_at(refs@),
            j <= refs@.len(),
            forall|k: int| 0 <= k < j ==> !#[trigger] q(k),
        decreases refs@.len() - j,
    {
        if is_domain_destroy_command(&refs[j]) {
            proof {
                lemma_least_index_is(refs@.len() as int, q, j as int);
            }
            return Some(j);
        }
        j += 1;
    }
    proof {
        lemma_least_index_none(refs@.len() as int, q);
    }
    None
}

fn find_loop_end(refs: &Vec<RelocationReference>, p: usize) -> (r: Option<usize>)
    ensures
        match r {
            Some(j) => loop_end_index(refs@, p as int) == Some(j as int),
            None => loop_end_index(refs@, p as int) is None,
        },
{
    let ghost q = loop_end_open(refs@, p as int);
    let mut depth: usize = 0;
    let mut j: usize = 0;
    while j < refs.len()
        invariant
            q == loop_end_open(refs@, p as int),
            j <= refs@.len(),
            depth as int == loop_depth_after(refs@, p as int, j as int),
            depth <= j,
            forall|k: int| 0 <= k < j ==> !#[trigger] q(k),
        decreases refs@.len() - j,
    {
        let r = &refs[j];
        if r.command_array_position > p {
            if is_iteration_head_command(r) {
                depth = depth + 1;
            } else if is_iteration_interrupt_command(r) {
                if depth == 0 {
                    proof {
                        lemma_least_index_is(refs@.len() as int, q, j as int);
                    }
                    return Some(j);
                }
                depth = depth - 1;
            }
        }
        j += 1;
    }
    proof {
        lemma_least_index_none(refs@.len() as int, q);
    }
    None
}

fn find_loop_head(refs: &Vec<RelocationReference>, p: usize) -> (r: Option<usize>)
    ensures
        match r {
            Some(j) => loop_head_index(refs@, p as int) == Some(j as int),
            None => loop_head_index(refs@, p as int) is None,
        },
{
    let ghost q = loop_head_open(refs@, p as int);
    let n = refs.len();
    let mut depth: usize = 0;
    let mut j: usize = n;
    while j > 0
        invariant
            q == loop_head_open(refs@, p as int),
            n == refs@.len(),
            j <= n,
            depth as int == loop_depth_before(refs@, p as int, j as int),
            depth <= n - j,
            forall|k: int| j <= k < n ==> !#[trigger] q(k),
        decreases j,
    {
        let r = &refs[j - 1];
        if r.command_array_position < p {
            if is_iteration_interrupt_command(r) {
                depth = depth + 1;
            } else if is_iteration_head_command(r) {
                if depth == 0 {
                    proof {
                        lemma_greatest_index_is(n as int, q, j - 1);
                    }
                    return Some(j - 1);
                }
                depth = depth - 1;
            }
        }
        j -= 1;
    }
    proof {
        lemma_greatest_index_none(n as int, q);
    }
    None
}

/// The first pass for one target.
fn resolve_target(refs: &Vec<RelocationReference>, t: &RelocationTarget) -> (r: Option<i32>)
    requires
        t.command_array_position <= i32::MAX,
        forall|i: int| 0 <= i < refs@.len() ==> refs@[i].command_array_position <= i32::MAX,
    ensures
        r == resolve(refs@, *t),
{
    let p = t.command_array_position;
    match &t.relocation_type {
        RelocationTargetType::Relative(x) => Some(*x),
        RelocationTargetType::DomainHead => match find_scope_end(refs, p) {
            Some(j) => Some(delta(refs, j, t)),
            None => None,
        },
        RelocationTargetType::BreakDomain(_) => match find_first_destroy(refs) {
            Some(j) => Some(delta(refs, j, t)),
            None => None,
        },
        RelocationTargetType::IgnoreDomain(n) => match find_span_end(refs, p, *n) {
            Some(j) => Some(delta(refs, j, t)),
            None => None,
        },
        RelocationTargetType::EnterFunction(_) => Some(t.relocated_address),
        RelocationTargetType::BreakIteration => match find_loop_end(refs, p) {
            Some(j) => Some(delta(refs, j, t)),
            None => None,
        },
        RelocationTargetType::IterationHead => match find_loop_head(refs, p) {
            Some(j) => Some(delta(refs, j, t)),
            None => None,
        },
        RelocationTargetType::Undefined => None,
    }
}

impl RelocatableCommandList {
    /// First pass: gives every target its address, as a signed delta from its own
    /// position (`Relative` keeps its delta, `EnterFunction` is left for the second
    /// pass). Fails, leaving the list as it was, when some target cannot be resolved.
    pub fn calculate_ref_to_target(&mut self) -> (r: Result<(), GeneralIssue<String>>)
        requires
            addresses_fit(old(self)@),
        ensures
            final(self)@.commands == old(self)@.commands,
            final(self)@.command_entries == old(self)@.command_entries,
            final(self)@.references == old(self)@.references,
            final(self).string_pool == old(self).string_pool,
            final(self).function_table == old(self).function_table,
            match r {
                Ok(()) => resolved_targets(old(self)@, final(self)@.targets) && forall|i: int|
                    0 <= i < final(self)@.targets.len() ==> !((#[trigger] final(self)@.targets[i]).relocation_type is Undefined),
                Err(e) => has_unresolvable(old(self)@) && final(self)@.targets == old(self)@.targets
                    && is_fatal_issue(e, IssuePosition::CodeGeneration),
            },
    {
        let n = self.descriptors.targets.len();
        let mut targets: Vec<RelocationTarget> = Vec::new();
        let mut i: usize = 0;
        while i < n
            invariant
                i <= n,
                n == self@.targets.len(),
                addresses_fit(self@),
                targets@.len() == i,
                forall|k: int|
                    0 <= k < i ==> resolve(self@.references, #[trigger] self@.targets[k]) is Some
                        && targets@[k] == with_address(
                        self@.targets[k],
                        resolve(self@.references, self@.targets[k])->Some_0,
                    ),
            decreases n - i,
        {
            let t = &self.descriptors.targets[i];
            match resolve_target(&self.descriptors.references, t) {
                Some(a) => {
                    targets.push(
                        RelocationTarget {
                            relocation_type: t.relocation_type.clone(),
                            command_array_position: t.command_array_position,
                            offset: t.offset,
                            relocated_address: a,
                        },
                    );
                },
                None => {
                    proof {
                        assert(resolve(self@.references, self@.targets[i as int]) is None);
                    }
                    return Err(fatal_issue(IssuePosition::CodeGeneration, "unresolved_target", "relocation target cannot be resolved"));
                },
            }
            i += 1;
        }
        self.descriptors.targets = targets;
        proof {
            assert forall|k: int| 0 <= k < self@.targets.len() implies !((#[trigger] self@.targets[k]).relocation_type is Undefined) by {
                assert(resolve(old(self)@.references, old(self)@.targets[k]) is Some);
            }
        }
        Ok(())
    }
}

} // verus!
