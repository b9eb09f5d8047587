use vstd::prelude::*;

use crate::issue::{fatal_issue, is_fatal_issue, GeneralIssue, IssuePosition};
use crate::relocation::{
    FunctionDescriptor, RelocatableCommandList, RelocationTarget, RelocationTargetType, StringConstant,
};

verus! {

/// Mode byte of an absolute slot address.
pub const ABSOLUTE_MODE: u8 = 0x00;

/// Mode byte of a backward (negative) relative jump.
pub const NEGATIVE_MODE: u8 = 0x0B;

/// Mode byte of a forward (non-negative) relative jump.
pub const POSITIVE_MODE: u8 = 0x0F;

/// The `len` low-order bytes of `v`, most significant first.
pub open spec fn be_bytes(v: nat, len: nat) -> Seq<u8>
    decreases len,
{
    if len == 0 {
        Seq::empty()
    } else {
        be_bytes(v / 256, (len - 1) as nat).push((v % 256) as u8)
    }
}

/// Bytes reserved for a jump address: one mode byte and `addr_len` bytes of magnitude.
pub open spec fn spec_placeholder_len(addr_len: u8) -> nat {
    addr_len as nat + 1
}

/// The number of bytes that a jump command reserves for its address.
pub fn jump_command_address_placeholder_len(addr_len: u8) -> (r: usize)
    ensures
        r == spec_placeholder_len(addr_len),
{
    addr_len as usize + 1
}

/// `v` written big-endian in exactly `len` bytes (higher bytes are dropped).
pub fn align_array_width(v: u64, len: usize) -> (r: Vec<u8>)
    ensures
        r@ == be_bytes(v as nat, len as nat),
{
    let mut r: Vec<u8> = Vec::new();
    let mut i: usize = 0;
    while i < len
        invariant
            i <= len,
            r@.len() == i,
        decreases len - i,
    {
        r.push(0);
        i += 1;
    }
    let mut x: u64 = v;
    let mut k: usize = len;
    while k > 0
        invariant
            k <= len,
            r@.len() == len,
            be_bytes(v as nat, len as nat) == be_bytes(x as nat, k as nat) + r@.subrange(k as int, len as int),
        decreases k,
    {
        let ghost before = r@;
        k -= 1;
        r.set(k, (x % 256) as u8);
        proof {
            assert(be_bytes(x as nat, (k + 1) as nat) == be_bytes((x / 256) as nat, k as nat).push((x % 256) as u8));
            assert(r@.subrange(k + 1, len as int) =~= before.subrange(k + 1, len as int));
            assert(be_bytes((x / 256) as nat, k as nat).push((x % 256) as u8) + before.subrange(k + 1, len as int)
                =~= be_bytes((x / 256) as nat, k as nat) + r@.subrange(k as int, len as int));
        }
        x = x / 256;
    }
    proof {
        assert(r@.subrange(0, len as int) =~= r@);
    }
    r
}

/// The index of the first function of `table` named `name`.
pub open spec fn function_index(table: Seq<FunctionDescriptor>, name: Seq<char>) -> Option<int> {
    crate::relocator::least_index(table.len() as int, named(table, name))
}

/// Holds at `i` where `table[i]` is named `name`.
pub open spec fn named(table: Seq<FunctionDescriptor>, name: Seq<char>) -> spec_fn(int) -> bool {
    |i: int| table[i].name@ == name
}

/// Magnitude of a signed address.
pub open spec fn magnitude(a: i32) -> nat {
    if a < 0 {
        (-a) as nat
    } else {
        a as nat
    }
}

/// The bytes that the second pass writes into the hole of `t`: for a call, mode
/// `0x00` and the slot of the called function; for anything else, `0x0B` (backward)
/// or `0x0F` (forward) and the magnitude of the resolved address.
pub open spec fn patch_bytes(t: RelocationTarget, table: Seq<FunctionDescriptor>, addr_len: u8) -> Option<
    Seq<u8>,
> {
    match t.relocation_type {
        RelocationTargetType::EnterFunction(id) => match function_index(table, id@) {
            Some(i) => Some(seq![ABSOLUTE_MODE] + be_bytes(table[i].slot as nat, addr_len as nat)),
            None => None,
        },
        _ => Some(
            seq![if t.relocated_address < 0 { NEGATIVE_MODE } else { POSITIVE_MODE }] + be_bytes(
                magnitude(t.relocated_address),
                addr_len as nat,
            ),
        ),
    }
}

/// First byte of the hole of `t`.
pub open spec fn hole_start(t: RelocationTarget) -> int {
    t.command_array_position + t.offset
}

/// `cmds` with `bytes` written from index `at` on.
pub open spec fn overwrite(cmds: Seq<u8>, at: int, bytes: Seq<u8>) -> Seq<u8> {
    cmds.take(at) + bytes + cmds.skip(at + bytes.len())
}

/// Every target has its bytes and its hole lies inside the commands.
pub open spec fn patchable(
    cmds: Seq<u8>,
    targets: Seq<RelocationTarget>,
    table: Seq<FunctionDescriptor>,
    addr_len: u8,
) -> bool {
    forall|i: int|
        0 <= i < targets.len() ==> patch_bytes(#[trigger] targets[i], table, addr_len) is Some
            && hole_start(targets[i]) + spec_placeholder_len(addr_len) <= cmds.len()
}

/// `cmds` after the holes of the first `k` targets have been written, in order.
pub open spec fn patched(
    cmds: Seq<u8>,
    targets: Seq<RelocationTarget>,
    table: Seq<FunctionDescriptor>,
    addr_len: u8,
    k: int,
) -> Seq<u8>
    decreases k,
{
    if k <= 0 || k > targets.len() {
        cmds
    } else {
        overwrite(
            patched(cmds, targets, table, addr_len, k - 1),
            hole_start(targets[k - 1]),
            patch_bytes(targets[k - 1], table, addr_len)->Some_0,
        )
    }
}

/// Each string of the pool: its UTF-8 length in `addr_len` big-endian bytes, then its
/// UTF-8 bytes.
pub open spec fn string_pool_bytes(pool: Seq<StringConstant>, addr_len: u8) -> Seq<u8>
    decreases pool.len(),
{
    if pool.len() == 0 {
        Seq::empty()
    } else {
        let last = vstd::utf8::encode_utf8(pool.last().value@);
        string_pool_bytes(pool.drop_last(), addr_len) + be_bytes(last.len() as nat, addr_len as nat) + last
    }
}

fn find_function(table: &Vec<FunctionDescriptor>, name: &String) -> (r: Option<usize>)
    ensures
        match r {
            Some(i) => function_index(table@, name@) == Some(i as int),
            None => function_index(table@, name@) is None,
        },
{
    let ghost q = named(table@, name@);
    let mut i: usize = 0;
    while i < table.len()
        invariant
            q == named(table@, name@),
            i <= table@.len(),
            forall|k: int| 0 <= k < i ==> !#[trigger] q(k),
        decreases table@.len() - i,
    {
        if table[i].name == *name {
            proof {
                crate::relocator::lemma_least_index_is(table@.len() as int, q, i as int);
            }
            return Some(i);
        }
        i += 1;
    }
    proof {
        crate::relocator::lemma_least_index_none(table@.len() as int, q);
    }
    None
}

fn compute_patch(t: &RelocationTarget, table: &Vec<FunctionDescriptor>, addr_len: u8) -> (r: Option<Vec<u8>>)
    ensures
        match r {
            Some(b) => patch_bytes(*t, table@, addr_len) == Some(b@),
            None => patch_bytes(*t, table@, addr_len) is None,
        },
{
    match &t.relocation_type {
        RelocationTargetType::EnterFunction(id) => match find_function(table, id) {
            Some(i) => {
                let mut bytes = vec![ABSOLUTE_MODE];
                let mut addr = align_array_width(table[i].slot, addr_len as usize);
                bytes.append(&mut addr);
                Some(bytes)
            },
            None => None,
        },
        _ => {
            let a = t.relocated_address;
            let m: u64 = if a < 0 { (-(a as i64)) as u64 } else { a as u64 };
            let mut bytes = if a < 0 { vec![NEGATIVE_MODE] } else { vec![POSITIVE_MODE] };
            let mut addr = align_array_width(m, addr_len as usize);
            bytes.append(&mut addr);
            Some(bytes)
        },
    }
}

fn write_bytes(cmds: &mut Vec<u8>, at: usize, bytes: &Vec<u8>)
    requires
        at + bytes@.len() <= old(cmds)@.len(),
    ensures
        final(cmds)@ == overwrite(old(cmds)@, at as int, bytes@),
{
    let ghost before = cmds@;
    let total = cmds.len();
    let mut i: usize = 0;
    while i < bytes.len()
        invariant
            total == before.len(),
            at + bytes@.len() <= before.len(),
            i <= bytes@.len(),
            cmds@.len() == before.len(),
            forall|k: int|
                0 <= k < cmds@.len() ==> #[trigger] cmds@[k] == if at <= k < at + i {
                    bytes@[k - at]
                } else {
                    before[k]
                },
        decreases bytes@.len() - i,
    {
        cmds.set(at + i, bytes[i]);
        i += 1;
    }
    assert(cmds@ =~= overwrite(before, at as int, bytes@));
}

impl RelocatableCommandList {
    /// Second pass: writes into each target's hole its mode byte and `addr_len` address
    /// bytes, in the order of the targets. Fails, leaving the list as it was, when a
    /// called function is missing from the function table or a hole lies outside the
    /// commands.
    pub fn apply_relocation(&mut self, addr_len: u8) -> (r: Result<(), GeneralIssue<String>>)
        ensures
            final(self)@.targets == old(self)@.targets,
            final(self)@.references == old(self)@.references,
            final(self)@.command_entries == old(self)@.command_entries,
            final(self).string_pool == old(self).string_pool,
            final(self).function_table == old(self).function_table,
            final(self)@.commands.len() == old(self)@.commands.len(),
            match r {
                Ok(()) => patchable(old(self)@.commands, old(self)@.targets, old(self).function_table@, addr_len)
                    && final(self)@.commands == patched(
                    old(self)@.commands,
                    old(self)@.targets,
                    old(self).function_table@,
                    addr_len,
                    old(self)@.targets.len() as int,
                ),
                Err(e) => !patchable(old(self)@.commands, old(self)@.targets, old(self).function_table@, addr_len)
                    && final(self)@.commands == old(self)@.commands
                    && is_fatal_issue(e, IssuePosition::CodeGeneration),
            },
    {
        let placeholder_len = jump_command_address_placeholder_len(addr_len);
        let n = self.descriptors.targets.len();
        let mut patches: Vec<Vec<u8>> = Vec::new();
        let mut i: usize = 0;
        while i < n
            invariant
                i <= n,
                n == self@.targets.len(),
                placeholder_len == spec_placeholder_len(addr_len),
                patches@.len() == i,
                self@ == old(self)@,
                self.string_pool == old(self).string_pool,
                self.function_table == old(self).function_table,
                forall|k: int|
                    0 <= k < i ==> patch_bytes(#[trigger] self@.targets[k], self.function_table@, addr_len)
                        == Some(patches@[k]@) && hole_start(self@.targets[k]) + placeholder_len
                        <= self@.commands.len(),
            decreases n - i,
        {
            let t = &self.descriptors.targets[i];
            let bytes = match compute_patch(t, &self.function_table, addr_len) {
                Some(b) => b,
                None => {
                    return Err(fatal_issue(IssuePosition::CodeGeneration, "unknown_function", "called function is not in the function table"));
                },
            };
            if t.offset > self.commands.len() || t.command_array_position > self.commands.len() - t.offset
                || placeholder_len > self.commands.len() - (t.command_array_position + t.offset) {
                return Err(fatal_issue(IssuePosition::CodeGeneration, "hole_out_of_range", "relocation hole lies outside the commands"));
            }
            patches.push(bytes);
            i += 1;
        }
        let ghost cmds0 = self@.commands;
        let total = self.commands.len();
        let mut j: usize = 0;
        while j < n
            invariant
                total == self@.commands.len(),
                cmds0 == old(self)@.commands,
                self@.targets == old(self)@.targets,
                self@.references == old(self)@.references,
                self@.command_entries == old(self)@.command_entries,
                self.string_pool == old(self).string_pool,
                self.function_table == old(self).function_table,
                j <= n,
                n == self@.targets.len(),
                patches@.len() == n,
                placeholder_len == spec_placeholder_len(addr_len),
                cmds0.len() == self@.commands.len(),
                forall|k: int|
                    0 <= k < n ==> patch_bytes(#[trigger] self@.targets[k], self.function_table@, addr_len)
                        == Some(patches@[k]@) && hole_start(self@.targets[k]) + placeholder_len
                        <= self@.commands.len(),
                self@.commands == patched(cmds0, self@.targets, self.function_table@, addr_len, j as int),
            decreases n - j,
        {
            let begin_pos = self.descriptors.targets[j].command_array_position + self.descriptors.targets[j].offset;
            proof {
                assert(patch_bytes(self@.targets[j as int], self.function_table@, addr_len) == Some(patches@[j as int]@));
                assert(patches@[j as int]@.len() == placeholder_len) by {
                    let t = self@.targets[j as int];
                    match t.relocation_type {
                        RelocationTargetType::EnterFunction(id) => {
                            lemma_be_bytes_len(
                                self.function_table@[function_index(self.function_table@, id@)->Some_0].slot as nat,
                                addr_len as nat,
                            );
                        },
                        _ => {
                            lemma_be_bytes_len(magnitude(t.relocated_address), addr_len as nat);
                        },
                    }
                }
            }
            write_bytes(&mut self.commands, begin_pos, &patches[j]);
            j += 1;
        }
        Ok(())
    }

    /// The string pool as bytes: for each string, its byte length written big-endian in
    /// `addr_len` bytes, followed by its bytes.
    pub fn generate_string_pool(&self, addr_len: u8) -> (r: Vec<u8>)
        ensures
            r@ == string_pool_bytes(self.string_pool@, addr_len),
    {
        let mut result: Vec<u8> = Vec::new();
        let mut i: usize = 0;
        while i < self.string_pool.len()
            invariant
                i <= self.string_pool@.len(),
                result@ == string_pool_bytes(self.string_pool@.take(i as int), addr_len),
            decreases self.string_pool@.len() - i,
        {
            let s = self.string_pool[i].value.as_str();
            let bytes = s.as_bytes();
            proof {
                assert(self.string_pool@.take(i + 1).last() == self.string_pool@[i as int]);
                assert(bytes@ == vstd::utf8::encode_utf8(self.string_pool@[i as int].value@));
            }
            let mut len = align_array_width(bytes.len() as u64, addr_len as usize);
            result.append(&mut len);
            let mut k: usize = 0;
            while k < bytes.len()
                invariant
                    k <= bytes@.len(),
                    result@ == string_pool_bytes(self.string_pool@.take(i as int), addr_len) + be_bytes(
                        bytes@.len() as nat,
                        addr_len as nat,
                    ) + bytes@.take(k as int),
                decreases bytes@.len() - k,
            {
                result.push(bytes[k]);
                proof {
                    assert(bytes@.take(k + 1) =~= bytes@.take(k as int).push(bytes@[k as int]));
                }
                k += 1;
            }
            proof {
                assert(bytes@.take(k as int) =~= bytes@);
                assert(self.string_pool@.take(i + 1).drop_last() =~= self.string_pool@.take(i as int));
            }
            i += 1;
        }
        proof {
            assert(self.string_pool@.take(i as int) =~= self.string_pool@);
        }
        result
    }
}

/// Index `x` lies in the hole of one of the first `k` targets.
pub open spec fn covered(targets: Seq<RelocationTarget>, addr_len: u8, k: int, x: int) -> bool {
    exists|i: int|
        0 <= i < k && hole_start(#[trigger] targets[i]) <= x < hole_start(targets[i]) + spec_placeholder_len(
            addr_len,
        )
}

/// The bytes written for one target are exactly `addr_len + 1`.
pub proof fn lemma_patch_bytes_len(t: RelocationTarget, table: Seq<FunctionDescriptor>, addr_len: u8)
    requires
        patch_bytes(t, table, addr_len) is Some,
    ensures
        patch_bytes(t, table, addr_len)->Some_0.len() == spec_placeholder_len(addr_len),
{
    match t.relocation_type {
        RelocationTargetType::EnterFunction(id) => {
            lemma_be_bytes_len(table[function_index(table, id@)->Some_0].slot as nat, addr_len as nat);
        },
        _ => {
            lemma_be_bytes_len(magnitude(t.relocated_address), addr_len as nat);
        },
    }
}

/// The second pass keeps the length of the commands, writes `addr_len + 1` bytes per
/// target, and leaves every byte outside the holes as it was.
pub proof fn lemma_patched_outside_holes(
    cmds: Seq<u8>,
    targets: Seq<RelocationTarget>,
    table: Seq<FunctionDescriptor>,
    addr_len: u8,
    k: int,
)
    requires
        patchable(cmds, targets, table, addr_len),
        0 <= k <= targets.len(),
    ensures
        patched(cmds, targets, table, addr_len, k).len() == cmds.len(),
        forall|i: int|
            0 <= i < targets.len() ==> (#[trigger] patch_bytes(targets[i], table, addr_len))->Some_0.len()
                == spec_placeholder_len(addr_len),
        forall|x: int|
            0 <= x < cmds.len() && !covered(targets, addr_len, k, x) ==> #[trigger] patched(
                cmds,
                targets,
                table,
                addr_len,
                k,
            )[x] == cmds[x],
    decreases k,
{
    assert forall|i: int| 0 <= i < targets.len() implies (#[trigger] patch_bytes(
        targets[i],
        table,
        addr_len,
    ))->Some_0.len() == spec_placeholder_len(addr_len) by {
        lemma_patch_bytes_len(targets[i], table, addr_len);
    }
    if k > 0 {
        lemma_patched_outside_holes(cmds, targets, table, addr_len, k - 1);
        assert forall|x: int|
            0 <= x < cmds.len() && !covered(targets, addr_len, k, x) implies #[trigger] patched(
            cmds,
            targets,
            table,
            addr_len,
            k,
        )[x] == cmds[x] by {
            if covered(targets, addr_len, k - 1, x) {
                let i = choose|i: int|
                    0 <= i < k - 1 && hole_start(#[trigger] targets[i]) <= x < hole_start(targets[i])
                        + spec_placeholder_len(addr_len);
                assert(0 <= i < k);
            }
            assert(!(hole_start(targets[k - 1]) <= x < hole_start(targets[k - 1]) + spec_placeholder_len(addr_len)));
        }
    }
}

/// Bytes inside the holes of the first `k` targets do not depend on the commands that
/// were patched.
proof fn lemma_patched_covered_independent(
    c1: Seq<u8>,
    c2: Seq<u8>,
    targets: Seq<RelocationTarget>,
    table: Seq<FunctionDescriptor>,
    addr_len: u8,
    k: int,
)
    requires
        patchable(c1, targets, table, addr_len),
        c1.len() == c2.len(),
        0 <= k <= targets.len(),
    ensures
        forall|x: int|
            0 <= x < c1.len() && covered(targets, addr_len, k, x) ==> patched(c1, targets, table, addr_len, k)[x]
                == #[trigger] patched(c2, targets, table, addr_len, k)[x],
    decreases k,
{
    lemma_patched_outside_holes(c1, targets, table, addr_len, k);
    assert(patchable(c2, targets, table, addr_len));
    lemma_patched_outside_holes(c2, targets, table, addr_len, k);
    if k > 0 {
        lemma_patched_covered_independent(c1, c2, targets, table, addr_len, k - 1);
        lemma_patched_outside_holes(c1, targets, table, addr_len, k - 1);
        lemma_patched_outside_holes(c2, targets, table, addr_len, k - 1);
        assert forall|x: int| 0 <= x < c1.len() && covered(targets, addr_len, k, x) implies patched(
            c1,
            targets,
            table,
            addr_len,
            k,
        )[x] == #[trigger] patched(c2, targets, table, addr_len, k)[x] by {
            let s = hole_start(targets[k - 1]);
            if !(s <= x < s + spec_placeholder_len(addr_len)) {
                let i = choose|i: int|
                    0 <= i < k && hole_start(#[trigger] targets[i]) <= x < hole_start(targets[i])
                        + spec_placeholder_len(addr_len);
                assert(i != k - 1);
                assert(covered(targets, addr_len, k - 1, x));
            }
        }
    }
}

/// Applying the second pass to its own output, with the same targets, function table
/// and address length, changes nothing.
pub proof fn lemma_apply_relocation_idempotent(
    cmds: Seq<u8>,
    targets: Seq<RelocationTarget>,
    table: Seq<FunctionDescriptor>,
    addr_len: u8,
)
    requires
        patchable(cmds, targets, table, addr_len),
    ensures
        patchable(patched(cmds, targets, table, addr_len, targets.len() as int), targets, table, addr_len),
        patched(
            patched(cmds, targets, table, addr_len, targets.len() as int),
            targets,
            table,
            addr_len,
            targets.len() as int,
        ) == patched(cmds, targets, table, addr_len, targets.len() as int),
{
    let n = targets.len() as int;
    let once = patched(cmds, targets, table, addr_len, n);
    lemma_patched_outside_holes(cmds, targets, table, addr_len, n);
    assert(patchable(once, targets, table, addr_len));
    lemma_patched_outside_holes(once, targets, table, addr_len, n);
    lemma_patched_covered_independent(once, cmds, targets, table, addr_len, n);
    let twice = patched(once, targets, table, addr_len, n);
    assert forall|x: int| 0 <= x < once.len() implies twice[x] == once[x] by {
        if covered(targets, addr_len, n, x) {
            assert(twice[x] == patched(cmds, targets, table, addr_len, n)[x]);
        } else {
            assert(twice[x] == once[x]);
        }
    }
    assert(twice =~= once);
}

/// `be_bytes` has exactly the requested length.
pub proof fn lemma_be_bytes_len(v: nat, len: nat)
    ensures
        be_bytes(v, len).len() == len,
    decreases len,
{
    if len > 0 {
        lemma_be_bytes_len(v / 256, (len - 1) as nat);
    }
}

} // verus!
