use vstd::prelude::*;

use crate::relocation::{
    combined, positions_within, shift_fits, shift_reference, CommandListModel, RelocationReference,
    RelocationTarget,
};
use crate::relocator::{domain_depth, domain_weight};

verus! {

/// Scope openings and closings of `refs` pair up: no prefix closes more scopes than it
/// opens, and the whole list closes all it opens.
pub open spec fn domains_balanced(refs: Seq<RelocationReference>) -> bool {
    &&& forall|k: int| 0 <= k <= refs.len() ==> #[trigger] domain_depth(refs, 0, k) >= 0
    &&& domain_depth(refs, 0, refs.len() as int) == 0
}

/// No target is left `Undefined`.
pub open spec fn no_undefined(targets: Seq<RelocationTarget>) -> bool {
    forall|i: int| 0 <= i < targets.len() ==> !((#[trigger] targets[i]).relocation_type is Undefined)
}

/// References appear in the order of their positions.
pub open spec fn sorted_by_position(refs: Seq<RelocationReference>) -> bool {
    forall|i: int, j: int|
        0 <= i <= j < refs.len() ==> (#[trigger] refs[i]).command_array_position
            <= (#[trigger] refs[j]).command_array_position
}

/// What the code generator guarantees of each list it emits: positions inside the
/// commands, references in position order, scopes paired, no `Undefined` target.
pub open spec fn generated_well(m: CommandListModel) -> bool {
    &&& positions_within(m)
    &&& sorted_by_position(m.references)
    &&& domains_balanced(m.references)
    &&& no_undefined(m.targets)
}

/// Depth over a prefix that lies inside `s`.
pub proof fn lemma_depth_prefix(s: Seq<RelocationReference>, t: Seq<RelocationReference>, k: int)
    requires
        0 <= k <= s.len(),
    ensures
        domain_depth(s + t, 0, k) == domain_depth(s, 0, k),
    decreases k,
{
    if k > 0 {
        lemma_depth_prefix(s, t, k - 1);
        assert((s + t)[k - 1] == s[k - 1]);
    }
}

/// Depth over `s` followed by part of `t`.
pub proof fn lemma_depth_suffix(s: Seq<RelocationReference>, t: Seq<RelocationReference>, k: int)
    requires
        0 <= k <= t.len(),
    ensures
        domain_depth(s + t, 0, s.len() + k) == domain_depth(s, 0, s.len() as int) + domain_depth(t, 0, k),
    decreases k,
{
    if k == 0 {
        lemma_depth_prefix(s, t, s.len() as int);
    } else {
        lemma_depth_suffix(s, t, k - 1);
        assert((s + t)[s.len() + k - 1] == t[k - 1]);
    }
}

proof fn lemma_depth_shift(b: Seq<RelocationReference>, base: int, k: int)
    requires
        0 <= k <= b.len(),
        base >= 0,
    ensures
        domain_depth(b.map_values(|r: RelocationReference| shift_reference(r, base)), 0, k) == domain_depth(b, 0, k),
    decreases k,
{
    if k > 0 {
        lemma_depth_shift(b, base, k - 1);
        let m = b.map_values(|r: RelocationReference| shift_reference(r, base));
        assert(domain_weight(m[k - 1], 0) == domain_weight(b[k - 1], 0));
    }
}

/// Appending one well-generated list to another gives a well-generated list, and the
/// positions of the appended part still fit.
pub proof fn lemma_combine_generated_well(a: CommandListModel, b: CommandListModel)
    requires
        generated_well(a),
        generated_well(b),
        a.commands.len() + b.commands.len() <= usize::MAX,
    ensures
        shift_fits(b, a.commands.len() as int),
        generated_well(combined(a, b)),
{
    let base = a.commands.len() as int;
    let c = combined(a, b);
    let bs = b.references.map_values(|r: RelocationReference| shift_reference(r, base));
    assert(c.references == a.references + bs);
    assert forall|k: int| 0 <= k <= c.references.len() implies #[trigger] domain_depth(c.references, 0, k) >= 0 by {
        if k <= a.references.len() {
            lemma_depth_prefix(a.references, bs, k);
        } else {
            let j = k - a.references.len();
            lemma_depth_suffix(a.references, bs, j);
            lemma_depth_shift(b.references, base, j);
            assert(domain_depth(b.references, 0, j) >= 0);
        }
    }
    lemma_depth_suffix(a.references, bs, bs.len() as int);
    lemma_depth_shift(b.references, base, b.references.len() as int);
    assert(a.references.len() + bs.len() == c.references.len());
    assert forall|i: int| 0 <= i < c.targets.len() implies !((#[trigger] c.targets[i]).relocation_type is Undefined) by {
        if i >= a.targets.len() {
            assert(!(b.targets[i - a.targets.len()].relocation_type is Undefined));
        }
    }
    assert forall|i: int| 0 <= i < c.targets.len() implies (#[trigger] c.targets[i]).command_array_position
        <= c.commands.len() by {
        if i >= a.targets.len() {
            assert(b.targets[i - a.targets.len()].command_array_position <= b.commands.len());
        }
    }
    assert forall|i: int| 0 <= i < c.references.len() implies (#[trigger] c.references[i]).command_array_position
        <= c.commands.len() by {
        if i >= a.references.len() {
            assert(b.references[i - a.references.len()].command_array_position <= b.commands.len());
        }
    }
    assert forall|i: int| 0 <= i < c.command_entries.len() implies #[trigger] c.command_entries[i]
        <= c.commands.len() by {
        if i >= a.command_entries.len() {
            assert(b.command_entries[i - a.command_entries.len()] <= b.commands.len());
        }
    }
    let na = a.references.len() as int;
    assert forall|i: int, j: int|
        0 <= i <= j < c.references.len() implies (#[trigger] c.references[i]).command_array_position
            <= (#[trigger] c.references[j]).command_array_position by {
        if j < na {
            assert(c.references[i] == a.references[i] && c.references[j] == a.references[j]);
        } else if i < na {
            assert(c.references[i] == a.references[i]);
            assert(c.references[j] == shift_reference(b.references[j - na], base));
        } else {
            assert(c.references[i] == shift_reference(b.references[i - na], base));
            assert(c.references[j] == shift_reference(b.references[j - na], base));
            assert(b.references[i - na].command_array_position <= b.references[j - na].command_array_position);
        }
    }
}

/// Scopes stay paired when `r` is preceded by `x`, which leaves one scope open, and
/// followed by `y`, which closes it.
pub proof fn lemma_wrap_balanced(x: Seq<RelocationReference>, r: Seq<RelocationReference>, y: Seq<RelocationReference>)
    requires
        domains_balanced(r),
        forall|k: int| 0 <= k <= x.len() ==> #[trigger] domain_depth(x, 0, k) >= 0,
        domain_depth(x, 0, x.len() as int) == 1,
        forall|k: int| 0 <= k <= y.len() ==> #[trigger] domain_depth(y, 0, k) >= -1,
        domain_depth(y, 0, y.len() as int) == -1,
    ensures
        domains_balanced(x + r + y),
{
    let xr = x + r;
    let all = xr + y;
    assert forall|k: int| 0 <= k <= all.len() implies #[trigger] domain_depth(all, 0, k) >= 0 by {
        if k <= xr.len() {
            lemma_depth_prefix(xr, y, k);
            if k <= x.len() {
                lemma_depth_prefix(x, r, k);
            } else {
                lemma_depth_suffix(x, r, k - x.len());
            }
        } else {
            lemma_depth_suffix(xr, y, k - xr.len());
            lemma_depth_suffix(x, r, r.len() as int);
        }
    }
    lemma_depth_suffix(xr, y, y.len() as int);
    lemma_depth_suffix(x, r, r.len() as int);
}

/// Appending a reference that neither opens nor closes a scope keeps scopes paired.
pub proof fn lemma_push_neutral(r: Seq<RelocationReference>, n: RelocationReference)
    requires
        domains_balanced(r),
        !(n.ref_type is DomainCreate),
        !(n.ref_type is DomainDestroy),
    ensures
        domains_balanced(r.push(n)),
{
    let t = seq![n];
    assert(r.push(n) == r + t);
    assert(domain_depth(t, 0, 0) == 0);
    assert(domain_depth(t, 0, 1) == 0);
    assert forall|k: int| 0 <= k <= r.len() + 1 implies #[trigger] domain_depth(r + t, 0, k) >= 0 by {
        if k <= r.len() {
            lemma_depth_prefix(r, t, k);
        } else {
            lemma_depth_suffix(r, t, 1);
        }
    }
    lemma_depth_suffix(r, t, 1);
}

/// Adding a reference that neither opens nor closes a scope, inside the commands, keeps
/// a list well generated.
pub proof fn lemma_push_reference_well(m: CommandListModel, n: RelocationReference)
    requires
        generated_well(m),
        !(n.ref_type is DomainCreate),
        !(n.ref_type is DomainDestroy),
        n.command_array_position <= m.commands.len(),
        forall|i: int| 0 <= i < m.references.len() ==> (#[trigger] m.references[i]).command_array_position
            <= n.command_array_position,
    ensures
        generated_well(
            CommandListModel {
                commands: m.commands,
                command_entries: m.command_entries,
                targets: m.targets,
                references: m.references.push(n),
            },
        ),
{
    lemma_push_neutral(m.references, n);
    let refs = m.references.push(n);
    assert forall|i: int, j: int|
        0 <= i <= j < refs.len() implies (#[trigger] refs[i]).command_array_position
            <= (#[trigger] refs[j]).command_array_position by {
        if j < m.references.len() {
            assert(refs[i] == m.references[i] && refs[j] == m.references[j]);
        } else if i < m.references.len() {
            assert(refs[i] == m.references[i]);
        }
    }
    assert forall|i: int| 0 <= i < refs.len() implies (#[trigger] refs[i]).command_array_position
        <= m.commands.len() by {
        if i < m.references.len() {
            assert(refs[i] == m.references[i]);
        }
    }
}

/// Merging two lists whose scope openings and closings pair up gives a list whose
/// openings and closings pair up.
pub proof fn lemma_combine_keeps_balance(a: CommandListModel, b: CommandListModel)
    requires
        domains_balanced(a.references),
        domains_balanced(b.references),
    ensures
        domains_balanced(combined(a, b).references),
{
    let base = a.commands.len() as int;
    let c = combined(a, b);
    let bs = b.references.map_values(|r: RelocationReference| shift_reference(r, base));
    assert(c.references == a.references + bs);
    assert forall|k: int| 0 <= k <= c.references.len() implies #[trigger] domain_depth(c.references, 0, k) >= 0 by {
        if k <= a.references.len() {
            lemma_depth_prefix(a.references, bs, k);
        } else {
            let j = k - a.references.len();
            lemma_depth_suffix(a.references, bs, j);
            lemma_depth_shift(b.references, base, j);
            assert(domain_depth(b.references, 0, j) >= 0);
        }
    }
    lemma_depth_suffix(a.references, bs, bs.len() as int);
    lemma_depth_shift(b.references, base, b.references.len() as int);
}

} // verus!
