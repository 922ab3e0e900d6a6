//! The mini virtual machine: a stack-based interpreter for the instruction
//! language, with bounded loops, early-exit `break` semantics, and status
//! transitions driven by the village it runs against.

use vstd::prelude::*;

verus! {

broadcast use
    vstd::seq::axiom_seq_index_decreases,
    vstd::seq::axiom_seq_subrange_decreases,
    vstd::std_specs::vec::axiom_vec_decreases_to_view,
    vstd::std_specs::vec::axiom_vec_index_decreases,
;

use crate::village::Village;
use crate::village::VillageView;
use crate::village::VillagerType;
use crate::village::kind_at;
use crate::village::seq_has_label;
use crate::village::spec_kill;

/// An action a mini can take.
#[derive(Debug, PartialEq, Eq, Structural, Clone, Copy)]
pub enum Action {
    PostRegister,
    PostFlare,
    Detonate,
    Visit,
}

/// An operation on a mini's register.
#[derive(Debug, PartialEq, Eq, Structural, Clone, Copy)]
pub enum Operation {
    Increment,
    Decrement,
    SetValue(u8),
}

/// A conditional's predicate.
#[derive(Debug, PartialEq, Eq, Structural, Clone, Copy)]
pub enum Condition {
    VillagerIsAlive,
    VillagerIsDead,
    RegisterEq(u8),
}

/// Any instruction a mini can run.
#[derive(Debug, PartialEq, Eq)]
pub enum Instruction {
    Action(Action),
    Operation(Operation),
    Condition(Condition, Instructions),
    /// For infinite loop protection the count goes down each iteration; at
    /// zero the loop is exhausted.
    Repeat(u8, Instructions),
    Break,
}

pub type Instructions = Vec<Instruction>;

/// Something that can be posted to a mini's log.
#[derive(Debug, PartialEq, Eq, Structural, Clone, Copy)]
pub enum Event {
    PostedRegister(u8),
    PostedFlare,
    Finished,
}

pub type EventLog = Vec<Event>;

/// The status of a mini: running, or one of the three ways it stops.
#[derive(Debug, PartialEq, Eq, Structural, Clone, Copy)]
pub enum MiniStatus {
    Running,
    Done,
    Destroyed,
    Lost,
}

/// The mathematical shape of an instruction: as `Instruction`, but with
/// nested blocks as sequences, so that two structurally equal programs have
/// equal models.
pub enum InstructionModel {
    Action(Action),
    Operation(Operation),
    Condition(Condition, Seq<InstructionModel>),
    Repeat(u8, Seq<InstructionModel>),
    Break,
}

/// The model of a single instruction.
pub open spec fn instruction_model(i: Instruction) -> InstructionModel
    decreases i,
{
    match i {
        Instruction::Action(a) => InstructionModel::Action(a),
        Instruction::Operation(o) => InstructionModel::Operation(o),
        Instruction::Condition(c, body) => InstructionModel::Condition(c, stack_model(body@)),
        Instruction::Repeat(n, body) => InstructionModel::Repeat(n, stack_model(body@)),
        Instruction::Break => InstructionModel::Break,
    }
}

/// The model of an instruction sequence, element by element.
pub open spec fn stack_model(s: Seq<Instruction>) -> Seq<InstructionModel>
    decreases s,
{
    if s.len() == 0 {
        Seq::empty()
    } else {
        stack_model(s.drop_last()).push(instruction_model(s.last()))
    }
}

/// The model of a sequence is its sequence of models.
pub proof fn lemma_stack_model_index(s: Seq<Instruction>)
    ensures
        stack_model(s).len() == s.len(),
        forall|j: int| 0 <= j < s.len() ==> stack_model(s)[j] == instruction_model(s[j]),
    decreases s.len(),
{
    if s.len() > 0 {
        lemma_stack_model_index(s.drop_last());
        assert forall|j: int|
            0 <= j < s.len() implies stack_model(s)[j] == instruction_model(s[j]) by {
            if j < s.len() - 1 {
                assert(stack_model(s)[j] == stack_model(s.drop_last())[j]);
                assert(s.drop_last()[j] == s[j]);
            }
        }
    }
}

impl Instruction {
    /// A structural copy: the copy's model is the model of the original.
    pub fn deep_clone(&self) -> (r: Instruction)
        ensures
            instruction_model(r) == instruction_model(*self),
        decreases *self,
    {
        match self {
            Instruction::Action(a) => Instruction::Action(*a),
            Instruction::Operation(o) => Instruction::Operation(*o),
            Instruction::Condition(c, body) => {
                let r = Instruction::Condition(*c, clone_instructions(body));
                proof {
                    assert(instruction_model(r) == instruction_model(*self));
                }
                r
            },
            Instruction::Repeat(n, body) => {
                let r = Instruction::Repeat(*n, clone_instructions(body));
                proof {
                    assert(instruction_model(r) == instruction_model(*self));
                }
                r
            },
            Instruction::Break => Instruction::Break,
        }
    }
}

impl Clone for Instruction {
    /// A structural copy: the copy's model is the model of the original.
    fn clone(&self) -> (r: Instruction)
        ensures
            instruction_model(r) == instruction_model(*self),
    {
        self.deep_clone()
    }
}

/// A structural copy of an instruction sequence, model for model.
fn clone_instructions(v: &Vec<Instruction>) -> (r: Vec<Instruction>)
    ensures
        stack_model(r@) == stack_model(v@),
    decreases v@,
{
    let mut r: Vec<Instruction> = Vec::new();
    let mut i: usize = 0;
    while i < v.len()
        invariant
            0 <= i <= v.len(),
            r@.len() == i,
            forall|j: int| 0 <= j < i ==> instruction_model(r@[j]) == instruction_model(v@[j]),
        decreases v.len() - i,
    {
        let c = v[i].deep_clone();
        let ghost pre = r@;
        r.push(c);
        proof {
            assert forall|j: int|
                0 <= j < i + 1 implies instruction_model(r@[j]) == instruction_model(
                v@[j],
            ) by {
                if j < i {
                    assert(r@[j] == pre[j]);
                } else {
                    assert(r@[j] == c);
                }
            }
        }
        i = i + 1;
    }
    proof {
        lemma_stack_model_index(r@);
        lemma_stack_model_index(v@);
        assert(stack_model(r@) =~= stack_model(v@));
    }
    r
}

/// The mathematical content of a mini: its remaining work (the next
/// instruction is the last element), register, status, location and log.
#[verifier::ext_equal]
pub struct MiniView {
    pub stack: Seq<InstructionModel>,
    pub register: u8,
    pub status: MiniStatus,
    pub location: u8,
    pub log: Seq<Event>,
}

/// A mini, along with all the information it needs to run: an instruction
/// stack, register, log, and so on.
pub struct Mini {
    /// Because this is a stack, the "next" instruction is at the end of the
    /// vector.
    pub instruction_stack: Instructions,
    pub register: u8,
    pub status: MiniStatus,
    pub location: u8,
    pub log: EventLog,
}

impl View for Mini {
    type V = MiniView;

    open spec fn view(&self) -> MiniView {
        MiniView {
            stack: stack_model(self.instruction_stack@),
            register: self.register,
            status: self.status,
            location: self.location,
            log: self.log@,
        }
    }
}

/// Whether a conditional's predicate holds of the mini's current location
/// and register in this village.
pub open spec fn spec_condition_holds(
    c: Condition,
    location: u8,
    register: u8,
    v: VillageView,
) -> bool {
    match c {
        Condition::VillagerIsAlive => seq_has_label(v.living, location),
        Condition::VillagerIsDead => seq_has_label(v.dead, location),
        Condition::RegisterEq(x) => register == x,
    }
}

/// What a visit does to the mini. A label naming nobody leaves the mini
/// lost (and nothing else changes); otherwise the mini moves there. A dead
/// villager is always safe. A living murderer destroys the mini and wipes
/// its log; a living afraid villager destroys it but leaves the log; the
/// others do nothing.
pub open spec fn spec_visit(m: MiniView, v: VillageView, label: u8) -> MiniView {
    if !v.has_villager(label) {
        MiniView { status: MiniStatus::Lost, ..m }
    } else {
        let moved = MiniView { location: label, ..m };
        if seq_has_label(v.dead, label) {
            moved
        } else if kind_at(v.living, label) == VillagerType::Murderer {
            MiniView { status: MiniStatus::Destroyed, log: Seq::empty(), ..moved }
        } else if kind_at(v.living, label) == VillagerType::Afraid {
            MiniView { status: MiniStatus::Destroyed, ..moved }
        } else {
            moved
        }
    }
}

/// What `Break` does to the rest of the stack: instructions are discarded
/// until a `Repeat` continuation is discarded (the innermost enclosing
/// loop), or until the stack is exhausted, which ends the program (the
/// second component says whether that happened).
pub open spec fn spec_unwind(stack: Seq<InstructionModel>) -> (Seq<InstructionModel>, bool)
    decreases stack.len(),
{
    if stack.len() == 0 {
        (stack, true)
    } else {
        match stack.last() {
            InstructionModel::Repeat(_, _) => (stack.drop_last(), false),
            _ => spec_unwind(stack.drop_last()),
        }
    }
}

/// One step of the mini virtual machine: pop the next instruction and carry
/// it out against the village. An empty stack means the program is done.
pub open spec fn spec_step(m: MiniView, v: VillageView) -> (MiniView, VillageView) {
    if m.stack.len() == 0 {
        (MiniView { status: MiniStatus::Done, ..m }, v)
    } else {
        let rest = m.stack.drop_last();
        let m1 = MiniView { stack: rest, ..m };
        match m.stack.last() {
            InstructionModel::Action(Action::PostRegister) => (
                MiniView { log: m1.log.push(Event::PostedRegister(m.register)), ..m1 },
                v,
            ),
            InstructionModel::Action(Action::PostFlare) => (
                MiniView { log: m1.log.push(Event::PostedFlare), ..m1 },
                v,
            ),
            InstructionModel::Action(Action::Detonate) => (
                MiniView { status: MiniStatus::Destroyed, ..m1 },
                spec_kill(v, m.register),
            ),
            InstructionModel::Action(Action::Visit) => (spec_visit(m1, v, m.register), v),
            InstructionModel::Operation(Operation::Increment) => if m.register == 255 {
                (MiniView { status: MiniStatus::Destroyed, ..m1 }, v)
            } else {
                (MiniView { register: (m.register + 1) as u8, ..m1 }, v)
            },
            InstructionModel::Operation(Operation::Decrement) => if m.register == 0 {
                (MiniView { status: MiniStatus::Destroyed, ..m1 }, v)
            } else {
                (MiniView { register: (m.register - 1) as u8, ..m1 }, v)
            },
            InstructionModel::Operation(Operation::SetValue(x)) => (
                MiniView { register: x, ..m1 },
                v,
            ),
            InstructionModel::Condition(c, body) => if spec_condition_holds(
                c,
                m.location,
                m.register,
                v,
            ) {
                (MiniView { stack: rest + body, ..m1 }, v)
            } else {
                (m1, v)
            },
            InstructionModel::Repeat(n, body) => if n == 0 {
                (m1, v)
            } else {
                (
                    MiniView {
                        stack: rest.push(InstructionModel::Repeat((n - 1) as u8, body)) + body,
                        ..m1
                    },
                    v,
                )
            },
            InstructionModel::Break => {
                let unwound = spec_unwind(rest);
                (
                    MiniView {
                        stack: unwound.0,
                        status: if unwound.1 {
                            MiniStatus::Done
                        } else {
                            m.status
                        },
                        ..m1
                    },
                    v,
                )
            },
        }
    }
}

/// The state of the machine after `n` steps, stuttering once the mini is no
/// longer running.
pub open spec fn spec_step_n(m: MiniView, v: VillageView, n: nat) -> (MiniView, VillageView)
    decreases n,
{
    if n == 0 {
        (m, v)
    } else {
        let prev = spec_step_n(m, v, (n - 1) as nat);
        if prev.0.status == MiniStatus::Running {
            spec_step(prev.0, prev.1)
        } else {
            prev
        }
    }
}

/// The work left in one repeat instruction whose body weighs `b`: each of
/// the `n` iterations runs the body and one continuation frame.
pub open spec fn repeat_weight(n: u8, b: nat) -> nat
    decreases n,
{
    if n == 0 {
        0
    } else {
        b + 1 + repeat_weight((n - 1) as u8, b)
    }
}

/// An upper bound on the steps one instruction can give rise to: the mini
/// virtual machine's termination measure.
pub open spec fn instruction_weight(i: InstructionModel) -> nat
    decreases i,
{
    match i {
        InstructionModel::Condition(_, body) => 1 + stack_weight(body),
        InstructionModel::Repeat(n, body) => 1 + repeat_weight(n, stack_weight(body)),
        _ => 1,
    }
}

/// The combined weight of everything still on the stack.
pub open spec fn stack_weight(s: Seq<InstructionModel>) -> nat
    decreases s,
{
    if s.len() == 0 {
        0
    } else {
        stack_weight(s.drop_last()) + instruction_weight(s.last())
    }
}

/// Weight adds up over concatenation.
proof fn lemma_stack_weight_add(a: Seq<InstructionModel>, b: Seq<InstructionModel>)
    ensures
        stack_weight(a + b) == stack_weight(a) + stack_weight(b),
    decreases b.len(),
{
    if b.len() == 0 {
        assert(a + b =~= a);
    } else {
        assert((a + b).drop_last() =~= a + b.drop_last());
        assert((a + b).last() == b.last());
        lemma_stack_weight_add(a, b.drop_last());
    }
}

/// Unwinding only discards instructions, so it cannot gain weight.
proof fn lemma_unwind_weight(s: Seq<InstructionModel>)
    ensures
        stack_weight(spec_unwind(s).0) <= stack_weight(s),
    decreases s.len(),
{
    if s.len() > 0 {
        match s.last() {
            InstructionModel::Repeat(_, _) => {},
            _ => {
                lemma_unwind_weight(s.drop_last());
            },
        }
    }
}

/// Every step of a running mini strictly shrinks the machine's measure:
/// the stack weight, plus one while the mini still runs.
pub proof fn lemma_step_decreases(m: MiniView, v: VillageView)
    requires
        m.status == MiniStatus::Running,
    ensures
        ({
            let stepped = spec_step(m, v).0;
            stack_weight(stepped.stack) + (if stepped.status == MiniStatus::Running {
                1nat
            } else {
                0nat
            }) < stack_weight(m.stack) + 1
        }),
{
    if m.stack.len() == 0 {
    } else {
        let rest = m.stack.drop_last();
        let stepped = spec_step(m, v).0;
        assert(stack_weight(m.stack) == stack_weight(rest) + instruction_weight(
            m.stack.last(),
        ));
        match m.stack.last() {
            InstructionModel::Condition(c, body) => {
                if spec_condition_holds(c, m.location, m.register, v) {
                    lemma_stack_weight_add(rest, body);
                    assert(stepped.stack == rest + body);
                    assert(stack_weight(stepped.stack) == stack_weight(rest) + stack_weight(
                        body,
                    ));
                } else {
                    assert(stepped.stack == rest);
                }
            },
            InstructionModel::Repeat(n, body) => {
                if n != 0 {
                    let continuation = InstructionModel::Repeat((n - 1) as u8, body);
                    lemma_stack_weight_add(rest.push(continuation), body);
                    assert(rest.push(continuation).drop_last() =~= rest);
                    assert(stepped.stack == rest.push(continuation) + body);
                    assert(stack_weight(rest.push(continuation)) == stack_weight(rest)
                        + instruction_weight(continuation));
                    assert(instruction_weight(m.stack.last()) == 1 + stack_weight(body) + 1
                        + repeat_weight((n - 1) as u8, stack_weight(body)));
                } else {
                    assert(stepped.stack == rest);
                }
            },
            InstructionModel::Break => {
                lemma_unwind_weight(rest);
                assert(stepped.stack == spec_unwind(rest).0);
            },
            InstructionModel::Action(a) => {
                assert(stepped.stack == rest);
            },
            InstructionModel::Operation(o) => {
                assert(stepped.stack == rest);
            },
        }
        assert(stack_weight(stepped.stack) < stack_weight(m.stack));
    }
}

/// Incrementing the register at the top of its range, or decrementing it
/// at zero, destroys the mini and leaves the register (and the village)
/// unchanged.
pub proof fn lemma_register_safety(m: MiniView, v: VillageView)
    requires
        m.stack.len() > 0,
        (m.stack.last() == InstructionModel::Operation(Operation::Increment) && m.register
            == 255) || (m.stack.last() == InstructionModel::Operation(Operation::Decrement)
            && m.register == 0),
    ensures
        spec_step(m, v).0.status == MiniStatus::Destroyed,
        spec_step(m, v).0.register == m.register,
        spec_step(m, v).1 == v,
{
}

/// Visiting a living murderer destroys the mini and wipes its log clean;
/// visiting a living afraid villager destroys it but keeps the log; and
/// visiting any dead villager changes neither status nor log.
pub proof fn lemma_visit_outcomes(m: MiniView, v: VillageView, label: u8)
    requires
        v.wf(),
    ensures
        seq_has_label(v.living, label) && kind_at(v.living, label) == VillagerType::Murderer
            ==> spec_visit(m, v, label).status == MiniStatus::Destroyed && spec_visit(
            m,
            v,
            label,
        ).log == Seq::<Event>::empty(),
        seq_has_label(v.living, label) && kind_at(v.living, label) == VillagerType::Afraid
            ==> spec_visit(m, v, label).status == MiniStatus::Destroyed && spec_visit(
            m,
            v,
            label,
        ).log == m.log,
        seq_has_label(v.dead, label) ==> spec_visit(m, v, label).status == m.status
            && spec_visit(m, v, label).log == m.log,
{
    if seq_has_label(v.living, label) && seq_has_label(v.dead, label) {
        let i = crate::village::label_index(v.living, label);
        let j = crate::village::label_index(v.dead, label);
        assert(v.living[i].label != v.dead[j].label);
    }
}

/// `Break` discards exactly the remaining instructions of the innermost
/// enclosing repeat's body together with that repeat's own continuation
/// frame, and leaves everything beneath them for later steps; with no
/// enclosing repeat it would end the program instead.
pub proof fn lemma_break_unwinds(
    outer: Seq<InstructionModel>,
    n: u8,
    body: Seq<InstructionModel>,
    inner: Seq<InstructionModel>,
)
    requires
        forall|i: int| 0 <= i < inner.len() ==> !(#[trigger] inner[i] is Repeat),
    ensures
        spec_unwind(outer.push(InstructionModel::Repeat(n, body)) + inner) == (outer, false),
    decreases inner.len(),
{
    let frame = InstructionModel::Repeat(n, body);
    if inner.len() == 0 {
        assert(outer.push(frame) + inner =~= outer.push(frame));
        assert((outer.push(frame)).drop_last() =~= outer);
    } else {
        assert((outer.push(frame) + inner).last() == inner.last());
        assert(!(inner.last() is Repeat));
        assert((outer.push(frame) + inner).drop_last() =~= outer.push(frame)
            + inner.drop_last());
        lemma_break_unwinds(outer, n, body, inner.drop_last());
    }
}

/// A repeat with an empty body does no work: run for however many steps,
/// it never moves the register (the bounded count only drains away).
pub proof fn lemma_empty_repeat_register(m: MiniView, v: VillageView, k: u8, n: nat)
    requires
        m.stack =~= seq![InstructionModel::Repeat(k, Seq::<InstructionModel>::empty())],
    ensures
        spec_step_n(m, v, n).0.register == m.register,
    decreases n,
{
    lemma_empty_repeat_shape(m, v, k, n);
}

/// The strengthened induction behind `lemma_empty_repeat_register`: after
/// any number of steps the stack is still a single (smaller) empty repeat,
/// or empty, and the register has not moved.
proof fn lemma_empty_repeat_shape(m: MiniView, v: VillageView, k: u8, n: nat)
    requires
        m.stack =~= seq![InstructionModel::Repeat(k, Seq::<InstructionModel>::empty())],
    ensures
        ({
            let s = spec_step_n(m, v, n).0;
            &&& s.register == m.register
            &&& (s.stack =~= Seq::<InstructionModel>::empty() || exists|j: u8|
                s.stack =~= seq![InstructionModel::Repeat(j, Seq::<InstructionModel>::empty())])
        }),
    decreases n,
{
    if n > 0 {
        lemma_empty_repeat_shape(m, v, k, (n - 1) as nat);
        let prev = spec_step_n(m, v, (n - 1) as nat);
        let s = spec_step_n(m, v, n).0;
        if prev.0.status == MiniStatus::Running {
            if prev.0.stack =~= Seq::<InstructionModel>::empty() {
                assert(s.register == prev.0.register);
            } else {
                let j = choose|j: u8|
                    prev.0.stack =~= seq![
                        InstructionModel::Repeat(j, Seq::<InstructionModel>::empty()),
                    ];
                assert(prev.0.stack.last() == InstructionModel::Repeat(
                    j,
                    Seq::<InstructionModel>::empty(),
                ));
                if j == 0 {
                    assert(s.stack =~= Seq::<InstructionModel>::empty());
                } else {
                    let smaller = InstructionModel::Repeat(
                        (j - 1) as u8,
                        Seq::<InstructionModel>::empty(),
                    );
                    assert(s.stack =~= prev.0.stack.drop_last().push(smaller)
                        + Seq::<InstructionModel>::empty());
                    assert(s.stack =~= seq![smaller]);
                }
            }
        }
    }
}

/// The model of a concatenation is the concatenation of the models.
proof fn lemma_stack_model_add(a: Seq<Instruction>, b: Seq<Instruction>)
    ensures
        stack_model(a + b) == stack_model(a) + stack_model(b),
{
    lemma_stack_model_index(a + b);
    lemma_stack_model_index(a);
    lemma_stack_model_index(b);
    assert(stack_model(a + b) =~= stack_model(a) + stack_model(b));
}

impl Mini {
    /// Constructs a new mini: register zero, empty log, running, and then
    /// an immediate visit to the starting location, so that a mini started
    /// on a murderer or on nobody is terminal at once.
    pub fn new(
        starting_location: u8,
        base_instructions: Instructions,
        village: &Village,
    ) -> (r: Self)
        requires
            village@.wf(),
        ensures
            r@ == spec_visit(
                MiniView {
                    stack: stack_model(base_instructions@),
                    register: 0,
                    status: MiniStatus::Running,
                    location: starting_location,
                    log: Seq::empty(),
                },
                village@,
                starting_location,
            ),
    {
        let ghost stack = base_instructions@;
        let mut mini = Self {
            instruction_stack: base_instructions,
            register: 0,
            status: MiniStatus::Running,
            location: starting_location,
            log: Vec::new(),
        };
        proof {
            assert(mini@ =~= (MiniView {
                stack: stack_model(stack),
                register: 0,
                status: MiniStatus::Running,
                location: starting_location,
                log: Seq::empty(),
            }));
        }
        mini.visit_villager(village, starting_location);
        mini
    }

    pub fn log(&self) -> (r: &EventLog)
        ensures
            r@ == self@.log,
    {
        &self.log
    }

    /// Updates the mini's location (or loses it) and then carries out
    /// whatever the visited villager's kind entails.
    pub fn visit_villager(&mut self, village: &Village, location: u8)
        requires
            village@.wf(),
        ensures
            final(self)@ == spec_visit(old(self)@, village@, location),
    {
        let ghost pre = self@;
        if !village.villager_exists(location) {
            self.status = MiniStatus::Lost;
            proof {
                assert(self@ =~= spec_visit(pre, village@, location));
            }
            return;
        }
        self.location = location;
        // A dead villager is always safe to visit, whatever its kind was.
        if village.dead_villager(location).is_some() {
            proof {
                assert(self@ =~= spec_visit(pre, village@, location));
            }
            return;
        }
        // Do whatever the visited villager's kind entails.
        match village.villager_type(location) {
            Ok(VillagerType::Murderer) => {
                self.status = MiniStatus::Destroyed;
                self.log = Vec::new();
            },
            Ok(VillagerType::Afraid) => {
                self.status = MiniStatus::Destroyed;
            },
            _ => {},
        }
        proof {
            assert(self@ =~= spec_visit(pre, village@, location));
        }
    }

    /// Pops the top instruction off the instruction stack and runs it: one
    /// machine step, exactly as `spec_step` describes.
    pub fn run_instruction(&mut self, village: &mut Village)
        requires
            old(village)@.wf(),
        ensures
            final(village)@.wf(),
            (final(self)@, final(village)@) == spec_step(old(self)@, old(village)@),
    {
        let ghost pre = self@;
        let ghost prev = village@;
        let ghost pre_vec = self.instruction_stack@;
        // Get the next instruction; if there are none left, the mini is
        // done.
        let instruction = match self.instruction_stack.pop() {
            Some(instruction) => instruction,
            None => {
                self.status = MiniStatus::Done;
                proof {
                    assert(self@ =~= spec_step(pre, prev).0);
                }
                return;
            },
        };
        proof {
            assert(pre.stack == stack_model(pre_vec.drop_last()).push(
                instruction_model(pre_vec.last()),
            ));
            assert(self@.stack =~= pre.stack.drop_last());
            assert(instruction_model(instruction) == pre.stack.last());
        }
        let ghost popped = self@;
        match instruction {
            Instruction::Action(Action::PostRegister) => {
                self.log.push(Event::PostedRegister(self.register));
                proof {
                    assert(self@ =~= spec_step(pre, prev).0);
                }
            },
            Instruction::Action(Action::PostFlare) => {
                self.log.push(Event::PostedFlare);
                proof {
                    assert(self@ =~= spec_step(pre, prev).0);
                }
            },
            Instruction::Action(Action::Detonate) => {
                // A detonation against an absent or dead target is a no-op,
                // not a fault.
                let _ = village.kill_villager(self.register);
                self.status = MiniStatus::Destroyed;
                proof {
                    assert(self@ =~= spec_step(pre, prev).0);
                }
            },
            Instruction::Action(Action::Visit) => {
                // The mini travels to whatever label its register holds.
                let register = self.register;
                self.visit_villager(village, register);
                proof {
                    assert(popped =~= (MiniView { stack: pre.stack.drop_last(), ..pre }));
                    assert(self@ == spec_step(pre, prev).0);
                }
            },
            Instruction::Operation(Operation::Increment) => {
                // Destroy the mini rather than let the register overflow.
                if self.register == u8::MAX {
                    self.status = MiniStatus::Destroyed;
                } else {
                    self.register = self.register + 1;
                }
                proof {
                    assert(self@ =~= spec_step(pre, prev).0);
                }
            },
            Instruction::Operation(Operation::Decrement) => {
                // Destroy the mini rather than let the register underflow.
                if self.register == 0 {
                    self.status = MiniStatus::Destroyed;
                } else {
                    self.register = self.register - 1;
                }
                proof {
                    assert(self@ =~= spec_step(pre, prev).0);
                }
            },
            Instruction::Operation(Operation::SetValue(value)) => {
                self.register = value;
                proof {
                    assert(self@ =~= spec_step(pre, prev).0);
                }
            },
            Instruction::Condition(Condition::VillagerIsAlive, instructions) => {
                // If the villager the mini is at is alive, its block runs
                // next.
                if village.living_villager(self.location).is_some() {
                    self.push_block(instructions);
                    proof {
                        assert(self@ =~= spec_step(pre, prev).0);
                    }
                } else {
                    proof {
                        assert(self@ =~= spec_step(pre, prev).0);
                    }
                }
            },
            Instruction::Condition(Condition::VillagerIsDead, instructions) => {
                // If the villager the mini is at is dead, its block runs
                // next.
                if village.dead_villager(self.location).is_some() {
                    self.push_block(instructions);
                    proof {
                        assert(self@ =~= spec_step(pre, prev).0);
                    }
                } else {
                    proof {
                        assert(self@ =~= spec_step(pre, prev).0);
                    }
                }
            },
            Instruction::Condition(Condition::RegisterEq(value), instructions) => {
                // If the register holds the tested value, the block runs
                // next.
                if self.register == value {
                    self.push_block(instructions);
                    proof {
                        assert(self@ =~= spec_step(pre, prev).0);
                    }
                } else {
                    proof {
                        assert(self@ =~= spec_step(pre, prev).0);
                    }
                }
            },
            Instruction::Repeat(iterations, instructions) => {
                // Unless the loop is exhausted, queue a continuation with
                // one fewer iteration left, and then the body itself.
                if iterations != 0 {
                    let ghost body = instructions@;
                    let ghost rest_vec = self.instruction_stack@;
                    let continuation = Instruction::Repeat(
                        iterations - 1,
                        clone_instructions(&instructions),
                    );
                    let ghost cont_model = instruction_model(continuation);
                    self.instruction_stack.push(continuation);
                    proof {
                        assert(self.instruction_stack@.drop_last() =~= rest_vec);
                        assert(stack_model(self.instruction_stack@) == stack_model(
                            rest_vec,
                        ).push(cont_model));
                    }
                    self.push_block(instructions);
                    proof {
                        assert(cont_model == InstructionModel::Repeat(
                            (iterations - 1) as u8,
                            stack_model(body),
                        ));
                        assert(self@ =~= spec_step(pre, prev).0);
                    }
                } else {
                    proof {
                        assert(self@ =~= spec_step(pre, prev).0);
                    }
                }
            },
            Instruction::Break => {
                let ghost target = spec_unwind(pre.stack.drop_last());
                // Keep removing instructions until a repeat continuation is
                // removed (the innermost enclosing loop) or nothing is
                // left, which finishes the program.
                loop
                    invariant_except_break
                        village@ == prev,
                        self@.register == pre.register,
                        self@.location == pre.location,
                        self@.log == pre.log,
                        self@.status == pre.status,
                        spec_unwind(self@.stack) == target,
                    ensures
                        village@ == prev,
                        self@.register == pre.register,
                        self@.location == pre.location,
                        self@.log == pre.log,
                        self@.stack == target.0,
                        self@.status == (if target.1 {
                            MiniStatus::Done
                        } else {
                            pre.status
                        }),
                    decreases self@.stack.len(),
                {
                    let ghost s = self@.stack;
                    let ghost vcur = self.instruction_stack@;
                    match self.instruction_stack.pop() {
                        None => {
                            self.status = MiniStatus::Done;
                            break;
                        },
                        Some(removed) => {
                            proof {
                                assert(s == stack_model(vcur.drop_last()).push(
                                    instruction_model(vcur.last()),
                                ));
                                assert(self@.stack =~= s.drop_last());
                                assert(instruction_model(removed) == s.last());
                            }
                            match removed {
                                Instruction::Repeat(_, _) => {
                                    break;
                                },
                                _ => {},
                            }
                        },
                    }
                }
                proof {
                    assert(self@ =~= spec_step(pre, prev).0);
                }
            },
        }
    }

    /// Pushes a nested block onto the instruction stack, so that it runs
    /// next, in its stored order.
    fn push_block(&mut self, instructions: Instructions)
        ensures
            final(self)@ == (MiniView {
                stack: old(self)@.stack + stack_model(instructions@),
                ..old(self)@
            }),
    {
        let ghost rest_vec = self.instruction_stack@;
        let ghost body = instructions@;
        let mut ins = instructions;
        self.instruction_stack.append(&mut ins);
        proof {
            lemma_stack_model_add(rest_vec, body);
            assert(self@ =~= (MiniView {
                stack: stack_model(rest_vec) + stack_model(body),
                register: self@.register,
                status: self@.status,
                location: self@.location,
                log: self@.log,
            }));
        }
    }

    /// Keeps running instructions until the status leaves `Running`, then
    /// appends a `Finished` event exactly when the mini ended gracefully.
    /// The result is the unique end of the step semantics' trajectory.
    pub fn run_until_completion(&mut self, village: &mut Village)
        requires
            old(village)@.wf(),
        ensures
            final(village)@.wf(),
            final(self)@.status != MiniStatus::Running,
            exists|n: nat|
                {
                    let end = #[trigger] spec_step_n(old(self)@, old(village)@, n);
                    &&& end.0.status != MiniStatus::Running
                    &&& final(village)@ == end.1
                    &&& final(self)@ == (if end.0.status == MiniStatus::Done {
                        MiniView { log: end.0.log.push(Event::Finished), ..end.0 }
                    } else {
                        end.0
                    })
                },
    {
        let ghost m0 = self@;
        let ghost v0 = village@;
        let ghost mut steps: nat = 0;
        while self.status == MiniStatus::Running
            invariant
                village@.wf(),
                (self@, village@) == spec_step_n(m0, v0, steps),
            decreases stack_weight(self@.stack) + (if self@.status == MiniStatus::Running {
                1nat
            } else {
                0nat
            }),
        {
            let ghost cur_m = self@;
            let ghost cur_v = village@;
            self.run_instruction(village);
            proof {
                lemma_step_decreases(cur_m, cur_v);
                steps = steps + 1;
            }
        }
        // If the mini finished gracefully (it was not destroyed or lost),
        // record that in the log.
        if self.status == MiniStatus::Done {
            self.log.push(Event::Finished);
        }
        proof {
            let end = spec_step_n(m0, v0, steps);
            assert(end.0.status != MiniStatus::Running && village@ == end.1 && self@ == (
            if end.0.status == MiniStatus::Done {
                MiniView { log: end.0.log.push(Event::Finished), ..end.0 }
            } else {
                end.0
            })) by {
                if end.0.status == MiniStatus::Done {
                    assert(self@ =~= (MiniView {
                        log: end.0.log.push(Event::Finished),
                        ..end.0
                    }));
                }
            }
        }
    }
}

} // verus!
