use vstd::prelude::*;

verus! {

/// How the relocator resolves a hole in the command stream.
#[derive(Debug)]
pub enum RelocationTargetType {
    /// A delta that is already known.
    Relative(i32),
    /// The end of the scope that encloses the hole, skipping nested scopes.
    DomainHead,
    /// Leaves a chain of `n` scopes (resolved to the first scope end of the list).
    BreakDomain(usize),
    /// Skips `n` complete scopes that follow the hole.
    IgnoreDomain(usize),
    /// The slot of the named function.
    EnterFunction(String),
    /// The end of the innermost enclosing loop.
    BreakIteration,
    /// The head of the innermost enclosing loop.
    IterationHead,
    /// Must not survive code generation.
    Undefined,
}

/// What a labelled point in the command stream marks.
#[derive(Debug)]
pub enum RelocationReferenceType {
    FunctionEntrance(String),
    FunctionEnd,
    DomainCreate,
    DomainDestroy,
    IterationHead,
    IterationInterrupt,
    ElseEntrance,
    EndElse,
}

/// A hole at `command_array_position + offset` that receives a resolved address.
#[derive(Debug)]
pub struct RelocationTarget {
    pub relocation_type: RelocationTargetType,
    pub command_array_position: usize,
    pub offset: usize,
    pub relocated_address: i32,
}

/// A labelled point in the command stream that targets refer to.
#[derive(Debug)]
pub struct RelocationReference {
    pub ref_type: RelocationReferenceType,
    pub command_array_position: usize,
}

/// The holes and the labelled points of a command list.
#[derive(Debug)]
pub struct RelocationCredential {
    pub targets: Vec<RelocationTarget>,
    pub references: Vec<RelocationReference>,
}

/// A function of the package and the slot that calls to it use.
#[derive(Clone, Debug)]
pub struct FunctionDescriptor {
    pub name: String,
    pub slot: u64,
}

/// A string constant of the package.
#[derive(Clone, Debug)]
pub struct StringConstant {
    pub value: String,
}

/// Emitted bytes together with the relocation data that still has to be resolved.
#[derive(Debug)]
pub struct RelocatableCommandList {
    pub commands: Vec<u8>,
    pub command_entries: Vec<usize>,
    pub descriptors: RelocationCredential,
    pub string_pool: Vec<StringConstant>,
    pub function_table: Vec<FunctionDescriptor>,
}

impl Clone for RelocationTargetType {
    fn clone(&self) -> (r: Self)
        ensures
            r == *self,
    {
        match self {
            RelocationTargetType::Relative(x) => RelocationTargetType::Relative(*x),
            RelocationTargetType::DomainHead => RelocationTargetType::DomainHead,
            RelocationTargetType::BreakDomain(n) => RelocationTargetType::BreakDomain(*n),
            RelocationTargetType::IgnoreDomain(n) => RelocationTargetType::IgnoreDomain(*n),
            RelocationTargetType::EnterFunction(id) => RelocationTargetType::EnterFunction(id.clone()),
            RelocationTargetType::BreakIteration => RelocationTargetType::BreakIteration,
            RelocationTargetType::IterationHead => RelocationTargetType::IterationHead,
            RelocationTargetType::Undefined => RelocationTargetType::Undefined,
        }
    }
}

impl Clone for RelocationReferenceType {
    fn clone(&self) -> (r: Self)
        ensures
            r == *self,
    {
        match self {
            RelocationReferenceType::FunctionEntrance(id) => RelocationReferenceType::FunctionEntrance(id.clone()),
            RelocationReferenceType::FunctionEnd => RelocationReferenceType::FunctionEnd,
            RelocationReferenceType::DomainCreate => RelocationReferenceType::DomainCreate,
            RelocationReferenceType::DomainDestroy => RelocationReferenceType::DomainDestroy,
            RelocationReferenceType::IterationHead => RelocationReferenceType::IterationHead,
            RelocationReferenceType::IterationInterrupt => RelocationReferenceType::IterationInterrupt,
            RelocationReferenceType::ElseEntrance => RelocationReferenceType::ElseEntrance,
            RelocationReferenceType::EndElse => RelocationReferenceType::EndElse,
        }
    }
}

impl Clone for RelocationTarget {
    fn clone(&self) -> (r: Self)
        ensures
            r == *self,
    {
        RelocationTarget {
            relocation_type: self.relocation_type.clone(),
            command_array_position: self.command_array_position,
            offset: self.offset,
            relocated_address: self.relocated_address,
        }
    }
}

impl Clone for RelocationReference {
    fn clone(&self) -> (r: Self)
        ensures
            r == *self,
    {
        RelocationReference {
            ref_type: self.ref_type.clone(),
            command_array_position: self.command_array_position,
        }
    }
}

/// The reference marks the opening of a scope.
pub fn is_domain_create_command(r: &RelocationReference) -> (b: bool)
    ensures
        b == r.ref_type is DomainCreate,
{
    match &r.ref_type {
        RelocationReferenceType::DomainCreate => true,
        _ => false,
    }
}

/// The reference marks the end of a scope.
pub fn is_domain_destroy_command(r: &RelocationReference) -> (b: bool)
    ensures
        b == r.ref_type is DomainDestroy,
{
    match &r.ref_type {
        RelocationReferenceType::DomainDestroy => true,
        _ => false,
    }
}

/// The reference marks the end of a function.
pub fn is_function_end_command(r: &RelocationReference) -> (b: bool)
    ensures
        b == r.ref_type is FunctionEnd,
{
    match &r.ref_type {
        RelocationReferenceType::FunctionEnd => true,
        _ => false,
    }
}

/// The reference marks the head of a loop.
pub fn is_iteration_head_command(r: &RelocationReference) -> (b: bool)
    ensures
        b == r.ref_type is IterationHead,
{
    match &r.ref_type {
        RelocationReferenceType::IterationHead => true,
        _ => false,
    }
}

/// The reference marks the point where a loop is left.
pub fn is_iteration_interrupt_command(r: &RelocationReference) -> (b: bool)
    ensures
        b == r.ref_type is IterationInterrupt,
{
    match &r.ref_type {
        RelocationReferenceType::IterationInterrupt => true,
        _ => false,
    }
}

/// The mathematical content of a command list that merging acts on.
pub struct CommandListModel {
    pub commands: Seq<u8>,
    pub command_entries: Seq<usize>,
    pub targets: Seq<RelocationTarget>,
    pub references: Seq<RelocationReference>,
}

impl View for RelocatableCommandList {
    type V = CommandListModel;

    open spec fn view(&self) -> CommandListModel {
        CommandListModel {
            commands: self.commands@,
            command_entries: self.command_entries@,
            targets: self.descriptors.targets@,
            references: self.descriptors.references@,
        }
    }
}

/// `t` moved `base` bytes further into the command stream.
pub open spec fn shift_target(t: RelocationTarget, base: int) -> RelocationTarget {
    RelocationTarget {
        relocation_type: t.relocation_type,
        command_array_position: (t.command_array_position + base) as usize,
        offset: t.offset,
        relocated_address: t.relocated_address,
    }
}

/// `r` moved `base` bytes further into the command stream.
pub open spec fn shift_reference(r: RelocationReference, base: int) -> RelocationReference {
    RelocationReference {
        ref_type: r.ref_type,
        command_array_position: (r.command_array_position + base) as usize,
    }
}

/// `b` appended to `a`: bytes concatenated, and every position of `b` moved by the
/// length of `a`'s commands.
pub open spec fn combined(a: CommandListModel, b: CommandListModel) -> CommandListModel {
    let base = a.commands.len() as int;
    CommandListModel {
        commands: a.commands + b.commands,
        command_entries: a.command_entries + b.command_entries.map_values(|e: usize| (e + base) as usize),
        targets: a.targets + b.targets.map_values(|t: RelocationTarget| shift_target(t, base)),
        references: a.references + b.references.map_values(|r: RelocationReference| shift_reference(r, base)),
    }
}

/// Every position of `b`, moved by `base`, still fits in a `usize`.
pub open spec fn shift_fits(b: CommandListModel, base: int) -> bool {
    &&& forall|i: int| 0 <= i < b.targets.len() ==> b.targets[i].command_array_position + base <= usize::MAX
    &&& forall|i: int| 0 <= i < b.references.len() ==> b.references[i].command_array_position + base <= usize::MAX
    &&& forall|i: int| 0 <= i < b.command_entries.len() ==> b.command_entries[i] + base <= usize::MAX
}

/// Every position of `m` lies inside (or at the end of) its command bytes.
pub open spec fn positions_within(m: CommandListModel) -> bool {
    &&& forall|i: int| 0 <= i < m.targets.len() ==> m.targets[i].command_array_position <= m.commands.len()
    &&& forall|i: int| 0 <= i < m.references.len() ==> m.references[i].command_array_position <= m.commands.len()
    &&& forall|i: int| 0 <= i < m.command_entries.len() ==> m.command_entries[i] <= m.commands.len()
}

/// Merging is associative: appending `c` to the merge of `a` and `b` gives the same
/// bytes, entries, targets and references as appending the merge of `b` and `c` to
/// `a`, every position landing at the same place.
pub proof fn lemma_combine_associative(a: CommandListModel, b: CommandListModel, c: CommandListModel)
    requires
        a.commands.len() + b.commands.len() + c.commands.len() <= usize::MAX,
        shift_fits(b, a.commands.len() as int),
        shift_fits(c, b.commands.len() as int),
        shift_fits(c, (a.commands.len() + b.commands.len()) as int),
    ensures
        combined(combined(a, b), c) == combined(a, combined(b, c)),
{
    let l = combined(combined(a, b), c);
    let r = combined(a, combined(b, c));
    assert(l.commands =~= r.commands);
    assert(l.command_entries =~= r.command_entries);
    assert(l.targets =~= r.targets);
    assert(l.references =~= r.references);
}

impl RelocationCredential {
    /// No targets and no references.
    pub fn new() -> (r: RelocationCredential)
        ensures
            r.targets@.len() == 0,
            r.references@.len() == 0,
    {
        RelocationCredential { targets: Vec::new(), references: Vec::new() }
    }
}

impl RelocationReference {
    /// A reference of the given kind at the start of the command stream.
    pub fn new(ref_type: RelocationReferenceType) -> (r: RelocationReference)
        ensures
            r.ref_type == ref_type,
            r.command_array_position == 0,
    {
        RelocationReference { ref_type, command_array_position: 0 }
    }
}

impl RelocatableCommandList {
    /// An empty list.
    pub fn new() -> (r: RelocatableCommandList)
        ensures
            r@.commands.len() == 0,
            r@.command_entries.len() == 0,
            r@.targets.len() == 0,
            r@.references.len() == 0,
            r.string_pool@.len() == 0,
            r.function_table@.len() == 0,
    {
        RelocatableCommandList {
            commands: Vec::new(),
            command_entries: Vec::new(),
            descriptors: RelocationCredential::new(),
            string_pool: Vec::new(),
            function_table: Vec::new(),
        }
    }

    /// A list that holds `cmd` and nothing to relocate.
    pub fn new_no_relocation(cmd: Vec<u8>) -> (r: RelocatableCommandList)
        ensures
            r@.commands == cmd@,
            r@.command_entries.len() == 0,
            r@.targets.len() == 0,
            r@.references.len() == 0,
            r.string_pool@.len() == 0,
            r.function_table@.len() == 0,
    {
        RelocatableCommandList {
            commands: cmd,
            command_entries: Vec::new(),
            descriptors: RelocationCredential::new(),
            string_pool: Vec::new(),
            function_table: Vec::new(),
        }
    }

    /// Appends raw bytes; positions already recorded stay where they are.
    pub fn append_commands(&mut self, commands: Vec<u8>)
        ensures
            final(self)@.commands == old(self)@.commands + commands@,
            final(self)@.command_entries == old(self)@.command_entries,
            final(self)@.targets == old(self)@.targets,
            final(self)@.references == old(self)@.references,
            final(self).string_pool == old(self).string_pool,
            final(self).function_table == old(self).function_table,
    {
        let mut commands = commands;
        self.commands.append(&mut commands);
    }

    /// Appends `model` to this list: its bytes follow ours, and each of its targets,
    /// references and command entries is moved by our former command length.
    pub fn combine(&mut self, model: RelocatableCommandList)
        requires
            old(self)@.commands.len() + model@.commands.len() <= usize::MAX,
            shift_fits(model@, old(self)@.commands.len() as int),
        ensures
            final(self)@ == combined(old(self)@, model@),
            final(self).string_pool == old(self).string_pool,
            final(self).function_table == old(self).function_table,
    {
        let ghost a = self@;
        let base_pos = self.commands.len();
        let n = model.descriptors.targets.len();
        let mut i: usize = 0;
        while i < n
            invariant
                i <= n,
                n == model@.targets.len(),
                base_pos == a.commands.len(),
                self@.commands == a.commands,
                self@.command_entries == a.command_entries,
                self@.references == a.references,
                self.string_pool == old(self).string_pool,
                self.function_table == old(self).function_table,
                shift_fits(model@, base_pos as int),
                self@.targets =~= a.targets + model@.targets.take(i as int).map_values(
                    |t: RelocationTarget| shift_target(t, base_pos as int),
                ),
            decreases n - i,
        {
            let item = &model.descriptors.targets[i];
            let moved = RelocationTarget {
                relocation_type: item.relocation_type.clone(),
                command_array_position: item.command_array_position + base_pos,
                offset: item.offset,
                relocated_address: item.relocated_address,
            };
            self.descriptors.targets.push(moved);
            proof {
                assert(model@.targets.take(i + 1) =~= model@.targets.take(i as int).push(model@.targets[i as int]));
            }
            i += 1;
        }
        let m = model.descriptors.references.len();
        let mut j: usize = 0;
        while j < m
            invariant
                j <= m,
                m == model@.references.len(),
                n == model@.targets.len(),
                base_pos == a.commands.len(),
                self@.commands == a.commands,
                self@.command_entries == a.command_entries,
                self.string_pool == old(self).string_pool,
                self.function_table == old(self).function_table,
                shift_fits(model@, base_pos as int),
                self@.targets =~= a.targets + model@.targets.take(n as int).map_values(
                    |t: RelocationTarget| shift_target(t, base_pos as int),
                ),
                self@.references =~= a.references + model@.references.take(j as int).map_values(
                    |r: RelocationReference| shift_reference(r, base_pos as int),
                ),
            decreases m - j,
        {
            let item = &model.descriptors.references[j];
            let moved = RelocationReference {
                ref_type: item.ref_type.clone(),
                command_array_position: item.command_array_position + base_pos,
            };
            self.descriptors.references.push(moved);
            proof {
                assert(model@.references.take(j + 1) =~= model@.references.take(j as int).push(
                    model@.references[j as int],
                ));
            }
            j += 1;
        }
        let e = model.command_entries.len();
        let mut k: usize = 0;
        while k < e
            invariant
                k <= e,
                e == model@.command_entries.len(),
                m == model@.references.len(),
                n == model@.targets.len(),
                base_pos == a.commands.len(),
                self@.commands == a.commands,
                self.string_pool == old(self).string_pool,
                self.function_table == old(self).function_table,
                shift_fits(model@, base_pos as int),
                self@.targets =~= a.targets + model@.targets.take(n as int).map_values(
                    |t: RelocationTarget| shift_target(t, base_pos as int),
                ),
                self@.references =~= a.references + model@.references.take(m as int).map_values(
                    |r: RelocationReference| shift_reference(r, base_pos as int),
                ),
                self@.command_entries =~= a.command_entries + model@.command_entries.take(k as int).map_values(
                    |x: usize| (x + base_pos) as usize,
                ),
            decreases e - k,
        {
            self.command_entries.push(model.command_entries[k] + base_pos);
            proof {
                assert(model@.command_entries.take(k + 1) =~= model@.command_entries.take(k as int).push(
                    model@.command_entries[k as int],
                ));
            }
            k += 1;
        }
        proof {
            assert(model@.targets.take(n as int) =~= model@.targets);
            assert(model@.references.take(m as int) =~= model@.references);
            assert(model@.command_entries.take(e as int) =~= model@.command_entries);
        }
        let mut bytes = model.commands;
        self.commands.append(&mut bytes);
        proof {
            assert(self@ == combined(a, model@));
        }
    }
}

} // verus!
