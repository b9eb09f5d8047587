use vstd::prelude::*;

use crate::codegen::PackageMetadata;
use crate::issue::{fatal_issue, is_fatal_issue, GeneralIssue, IssuePosition};
use crate::patch::{patchable, patched};
use crate::relocation::RelocatableCommandList;
use crate::relocator::{addresses_fit, has_unresolvable, resolved_targets};

verus! {

/// The header of a package: its metadata, one byte per field.
pub open spec fn header_bytes(m: PackageMetadata) -> Seq<u8> {
    seq![
        m.variable_slot_alignment,
        m.data_alignment,
        m.command_alignment,
        m.domain_layer_count_alignment,
        m.address_alignment,
        m.entry_point_offset,
    ]
}

/// Zero bytes that bring `len` up to a multiple of `alignment` (none for alignment 0).
pub open spec fn padding_len(len: nat, alignment: u8) -> nat {
    if alignment == 0 {
        0
    } else {
        let a = alignment as int;
        ((a - (len as int) % a) % a) as nat
    }
}

proof fn lemma_padding_aligns(len: nat, alignment: u8)
    requires
        alignment > 0,
    ensures
        ((len + padding_len(len, alignment)) as int) % (alignment as int) == 0,
{
    let a = alignment as int;
    let x = len as int;
    let r = x % a;
    let q = x / a;
    vstd::arithmetic::div_mod::lemma_fundamental_div_mod(x, a);
    vstd::arithmetic::div_mod::lemma_mod_bound(x, a);
    if r == 0 {
        vstd::arithmetic::div_mod::lemma_mod_self_0(a);
        assert(padding_len(len, alignment) == 0);
        vstd::arithmetic::div_mod::lemma_mod_multiples_basic(q, a);
        assert(q * a == a * q) by (nonlinear_arith);
    } else {
        vstd::arithmetic::div_mod::lemma_small_mod((a - r) as nat, a as nat);
        assert(padding_len(len, alignment) as int == a - r);
        vstd::arithmetic::div_mod::lemma_mod_multiples_basic(q + 1, a);
        assert((q + 1) * a == a * q + a) by (nonlinear_arith);
    }
}

fn positions_fit(list: &RelocatableCommandList) -> (r: bool)
    ensures
        r == addresses_fit(list@),
{
    let mut i: usize = 0;
    while i < list.descriptors.targets.len()
        invariant
            i <= list@.targets.len(),
            forall|k: int| 0 <= k < i ==> (#[trigger] list@.targets[k]).command_array_position <= i32::MAX,
        decreases list@.targets.len() - i,
    {
        if list.descriptors.targets[i].command_array_position > i32::MAX as usize {
            return false;
        }
        i += 1;
    }
    let mut j: usize = 0;
    while j < list.descriptors.references.len()
        invariant
            j <= list@.references.len(),
            forall|k: int| 0 <= k < list@.targets.len() ==> (#[trigger] list@.targets[k]).command_array_position
                <= i32::MAX,
            forall|k: int| 0 <= k < j ==> (#[trigger] list@.references[k]).command_array_position <= i32::MAX,
        decreases list@.references.len() - j,
    {
        if list.descriptors.references[j].command_array_position > i32::MAX as usize {
            return false;
        }
        j += 1;
    }
    true
}

/// Turns generated commands into package bytes: resolves every target, patches every
/// hole with `address_alignment` address bytes, and gives the header followed by the
/// patched commands. The package format this library writes pads the command region at
/// its end: zero bytes follow the last command until the region's length is a multiple
/// of `command_alignment`; commands themselves are not aligned. Fails when a position
/// does not fit a signed 32-bit delta, a target cannot be resolved, or a hole cannot be
/// patched.
pub fn build_package(metadata: &PackageMetadata, output: &mut RelocatableCommandList) -> (r: Result<
    Vec<u8>,
    GeneralIssue<String>,
>)
    ensures
        r is Ok <==> addresses_fit(old(output)@) && !has_unresolvable(old(output)@) && patchable(
            old(output)@.commands,
            final(output)@.targets,
            old(output).function_table@,
            metadata.address_alignment,
        ),
        r matches Err(e) ==> is_fatal_issue(e, IssuePosition::CodeGeneration),
        r matches Ok(bytes) ==> {
            &&& resolved_targets(old(output)@, final(output)@.targets)
            &&& final(output)@.commands == patched(
                old(output)@.commands,
                final(output)@.targets,
                old(output).function_table@,
                metadata.address_alignment,
                final(output)@.targets.len() as int,
            )
            &&& bytes@ == header_bytes(*metadata) + final(output)@.commands + Seq::new(
                padding_len(final(output)@.commands.len(), metadata.command_alignment),
                |i: int| 0u8,
            )
            &&& metadata.command_alignment > 0 ==> (bytes@.len() - header_bytes(*metadata).len())
                % (metadata.command_alignment as int) == 0
        },
{
    if !positions_fit(output) {
        return Err(fatal_issue(IssuePosition::CodeGeneration, "too_large", "position does not fit a signed 32-bit address"));
    }
    match output.calculate_ref_to_target() {
        Ok(()) => {},
        Err(e) => {
            return Err(e);
        },
    }
    match output.apply_relocation(metadata.address_alignment) {
        Ok(()) => {},
        Err(e) => {
            return Err(e);
        },
    }
    let mut bytes = metadata.serialize();
    let n = output.commands.len();
    let mut i: usize = 0;
    while i < n
        invariant
            i <= n,
            n == output@.commands.len(),
            bytes@ == header_bytes(*metadata) + output@.commands.take(i as int),
        decreases n - i,
    {
        bytes.push(output.commands[i]);
        proof {
            assert(output@.commands.take(i + 1) =~= output@.commands.take(i as int).push(output@.commands[i as int]));
        }
        i += 1;
    }
    proof {
        assert(output@.commands.take(n as int) =~= output@.commands);
    }
    let pad: usize = if metadata.command_alignment == 0 {
        0
    } else {
        let a = metadata.command_alignment as usize;
        (a - n % a) % a
    };
    proof {
        if metadata.command_alignment > 0 {
            lemma_padding_aligns(n as nat, metadata.command_alignment);
        }
    }
    let ghost full = bytes@;
    let mut k: usize = 0;
    while k < pad
        invariant
            k <= pad,
            bytes@ == full + Seq::new(k as nat, |i: int| 0u8),
        decreases pad - k,
    {
        bytes.push(0);
        proof {
            assert(full + Seq::new((k + 1) as nat, |i: int| 0u8) =~= (full + Seq::new(k as nat, |i: int| 0u8)).push(0u8));
        }
        k += 1;
    }
    Ok(bytes)
}

} // verus!
