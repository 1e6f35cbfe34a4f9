//! Scripts of commands and the instances that run them.
use vstd::prelude::*;
use crate::vm::context::{Context, Value};
use crate::vm::func::Callable;
use crate::vm::trap::Trap;

verus! {

/// An ordered list of commands, fixed once built.
pub struct Script<F> {
    funcs: Vec<F>,
}

impl<F> View for Script<F> {
    type V = Seq<F>;

    /// The commands, in order.
    closed spec fn view(&self) -> Seq<F> {
        self.funcs@
    }
}

/// Running the commands of `funcs` from position `pc` on, against `store`:
/// the store afterwards, the position reached and the outcome.
///
/// Each command runs on the store that the one before it left. A run ends
/// with success past the last command, and at the first command that fails;
/// a command that reports `ScriptOutOfBounds` ends the run with success too.
pub open spec fn run<F: Callable>(funcs: Seq<F>, pc: int, store: Map<Seq<char>, Value>) -> (
    Map<Seq<char>, Value>,
    int,
    Result<(), Trap>,
)
    decreases funcs.len() - pc,
{
    if pc < 0 || pc >= funcs.len() {
        (store, pc, Ok(()))
    } else {
        let (after, r) = funcs[pc].effect(store);
        match r {
            Ok(()) => run(funcs, pc + 1, after),
            Err(Trap::ScriptOutOfBounds) => (after, pc, Ok(())),
            Err(e) => (after, pc, Err(e)),
        }
    }
}

/// The state of one execution session.
pub struct InstanceState {
    ctx: Context,
    pc: usize,
}

impl InstanceState {
    /// A fresh state: an empty store, at the first command.
    fn new() -> (r: InstanceState)
        ensures
            r.ctx@ == Map::<Seq<char>, Value>::empty(),
            r.pc == 0,
    {
        InstanceState { ctx: Context::new(), pc: 0 }
    }
}

/// One execution session of a script: a store of its own and a program
/// counter.
pub struct Instance<'s, F> {
    script: &'s Script<F>,
    state: InstanceState,
}

impl<F> Script<F> {
    /// An empty script.
    pub fn new() -> (r: Script<F>)
        ensures
            r@ == Seq::<F>::empty(),
    {
        Script { funcs: Vec::new() }
    }

    /// A script of the commands `funcs`, in order.
    pub fn from_vec(funcs: Vec<F>) -> (r: Script<F>)
        ensures
            r@ == funcs@,
    {
        Script { funcs }
    }

    /// Appends a command.
    pub fn push(&mut self, func: F)
        ensures
            final(self)@ == old(self)@.push(func),
    {
        self.funcs.push(func);
    }

    /// The number of commands.
    pub fn len(&self) -> (r: usize)
        ensures
            r == self@.len(),
    {
        self.funcs.len()
    }

    /// The command at position `i`, if there is one.
    pub fn get(&self, i: usize) -> (r: Option<&F>)
        ensures
            i < self@.len() ==> r == Some(&self@[i as int]),
            i >= self@.len() ==> r is None,
    {
        if i < self.funcs.len() {
            Some(&self.funcs[i])
        } else {
            None
        }
    }

    /// A new session of this script: an empty store, at the first command.
    pub fn instance(&self) -> (r: Instance<'_, F>)
        ensures
            r.commands() == self@,
            r.store() == Map::<Seq<char>, Value>::empty(),
            r.pc() == 0,
            r.pc() <= r.commands().len(),
    {
        Instance { script: self, state: InstanceState::new() }
    }
}

impl<'s, F> Instance<'s, F> {
    /// The commands of the script that this session runs.
    pub closed spec fn commands(&self) -> Seq<F> {
        self.script@
    }

    /// The variables of this session.
    pub closed spec fn store(&self) -> Map<Seq<char>, Value> {
        self.state.ctx@
    }

    /// The position of the next command.
    pub closed spec fn pc(&self) -> nat {
        self.state.pc as nat
    }

    /// Returns to the first command with an empty store.
    pub fn reset(&mut self)
        ensures
            final(self).commands() == old(self).commands(),
            final(self).store() == Map::<Seq<char>, Value>::empty(),
            final(self).pc() == 0,
            final(self).pc() <= final(self).commands().len(),
    {
        self.state = InstanceState::new();
    }

    /// The variables of this session.
    pub fn ctx(&self) -> (r: &Context)
        ensures
            r@ == self.store(),
    {
        &self.state.ctx
    }

    /// The variables of this session, to change them.
    pub fn ctx_mut(&mut self) -> (r: &mut Context)
        ensures
            r@ == old(self).store(),
            final(self).store() == final(r)@,
            final(self).commands() == old(self).commands(),
            final(self).pc() == old(self).pc(),
    {
        &mut self.state.ctx
    }
}

impl<'s, F: Callable> Instance<'s, F> {
    /// Runs the command at the program counter and moves on to the next one.
    ///
    /// Past the last command nothing runs and `ScriptOutOfBounds` is
    /// returned. A failing command leaves the counter where it is.
    pub fn step(&mut self) -> (r: Result<(), Trap>)
        ensures
            final(self).commands() == old(self).commands(),
            old(self).pc() <= old(self).commands().len() ==> final(self).pc()
                <= final(self).commands().len(),
            old(self).pc() >= old(self).commands().len() ==> r == Err::<(), Trap>(
                Trap::ScriptOutOfBounds,
            ) && final(self).store() == old(self).store() && final(self).pc() == old(self).pc(),
            old(self).pc() < old(self).commands().len() ==> {
                &&& (final(self).store(), r) == old(self).commands()[old(self).pc() as int].effect(
                    old(self).store(),
                )
                &&& r is Ok ==> final(self).pc() == old(self).pc() + 1
                &&& r is Err ==> final(self).pc() == old(self).pc()
            },
    {
        let pc = self.state.pc;
        if pc >= self.script.len() {
            return Err(Trap::ScriptOutOfBounds);
        }
        let script = self.script;
        let f = &script.funcs[pc];
        assert(*f == self.commands()[pc as int]);
        let res = f.call(&mut self.state.ctx);
        if res.is_ok() {
            self.state.pc = pc + 1;
        }
        res
    }

    /// Steps until the script ends or a command fails.
    ///
    /// Running past the last command is success; the first failure is
    /// returned, and the store keeps what the commands before it did.
    pub fn exec(&mut self) -> (r: Result<(), Trap>)
        ensures
            final(self).commands() == old(self).commands(),
            old(self).pc() <= old(self).commands().len() ==> final(self).pc()
                <= final(self).commands().len(),
            (final(self).store(), final(self).pc() as int, r) == run(
                old(self).commands(),
                old(self).pc() as int,
                old(self).store(),
            ),
    {
        let ghost funcs = self.commands();
        let ghost start = run(funcs, self.pc() as int, self.store());
        loop
            invariant
                funcs == old(self).commands(),
                start == run(old(self).commands(), old(self).pc() as int, old(self).store()),
                self.commands() == funcs,
                run(funcs, self.pc() as int, self.store()) == start,
                old(self).pc() <= funcs.len() ==> self.pc() <= funcs.len(),
            decreases funcs.len() - self.pc(),
        {
            match self.step() {
                Ok(()) => {},
                Err(Trap::ScriptOutOfBounds) => {
                    return Ok(());
                },
                Err(e) => {
                    return Err(e);
                },
            }
        }
    }
}

/// A script without commands ends at once, with success, and leaves the
/// store as it was.
pub proof fn lemma_empty_script<F: Callable>(store: Map<Seq<char>, Value>)
    ensures
        run(Seq::<F>::empty(), 0, store) == (store, 0int, Ok::<(), Trap>(())),
{
}

/// A run from a position within the script ends within it, no earlier than
/// it started; where every command succeeds on every store, it ends with
/// success past the last command.
pub proof fn lemma_run_bounds<F: Callable>(funcs: Seq<F>, pc: int, store: Map<Seq<char>, Value>)
    requires
        0 <= pc <= funcs.len(),
    ensures
        pc <= run(funcs, pc, store).1 <= funcs.len(),
        (forall|j: int, st: Map<Seq<char>, Value>|
            0 <= j < funcs.len() ==> (#[trigger] funcs[j].effect(st)).1 is Ok) ==> run(
            funcs,
            pc,
            store,
        ).1 == funcs.len() && run(funcs, pc, store).2 is Ok,
    decreases funcs.len() - pc,
{
    if pc < funcs.len() {
        let (after, r) = funcs[pc].effect(store);
        if r is Ok {
            lemma_run_bounds(funcs, pc + 1, after);
        }
    }
}

/// A run never ends with `ScriptOutOfBounds`: running past the end is
/// success.
pub proof fn lemma_run_hides_out_of_bounds<F: Callable>(funcs: Seq<F>, pc: int, store: Map<Seq<char>, Value>)
    ensures
        run(funcs, pc, store).2 != Err::<(), Trap>(Trap::ScriptOutOfBounds),
    decreases funcs.len() - pc,
{
    if 0 <= pc < funcs.len() {
        let (after, r) = funcs[pc].effect(store);
        if r is Ok {
            lemma_run_hides_out_of_bounds(funcs, pc + 1, after);
        }
    }
}

} // verus!
