//! Batches of instructions: what a batch is, how it is run against a
//! scheduler, and how instructions and results are written as text.
use vstd::prelude::*;

pub mod text;

use crate::process::text::{
    instruction_of, parse_instruction, render_output, rendered_output, results_view, words_view,
};
use crate::scheduler::pcb::{PCBResource, PCBState};
use crate::scheduler::preservation::{
    lemma_create_wf, lemma_initial_wf, lemma_release_wf, lemma_request_wf, lemma_rotate_wf,
};
use crate::scheduler::removal::lemma_destroy_wf;
use crate::scheduler::state::SchedulerView;
use crate::scheduler::wellformed::rooted_within;
use crate::scheduler::Scheduler;

verus! {

/// One instruction of a batch.
#[derive(Debug, Clone, Copy, PartialEq, Eq, Structural)]
pub enum Instruction {
    /// Reset the scheduler.
    Init,
    /// Create a process of the given priority.
    Create(i32),
    /// Destroy the process of the given id, with its descendants.
    Destroy(i32),
    /// Request units of a resource class: the class, then the number of units.
    Request(i32, i32),
    /// Release units of a resource class: the class, then the number of units.
    Release(i32, i32),
    /// Let the running process time out.
    Timeout,
    /// An instruction that is none of these; it fails and changes nothing.
    Unknown,
}

/// The state that one instruction leads to and the result it reports:
/// the process that runs afterwards, or nothing where the instruction
/// is rejected and the state stays as it is.
pub open spec fn step(s: SchedulerView, instruction: Instruction) -> (SchedulerView, Option<usize>) {
    match instruction {
        Instruction::Init => (SchedulerView::initial(), Some(0usize)),
        Instruction::Create(priority) => if s.create_accepts(priority as int) {
            (s.create_next(priority as int), Some(s.create_next(priority as int).running_pid))
        } else {
            (s, None)
        },
        Instruction::Destroy(pid) => if s.destroy_accepts(pid as int) {
            (s.destroy_next(pid as int), Some(s.destroy_next(pid as int).running_pid))
        } else {
            (s, None)
        },
        Instruction::Request(rid, units) => if s.request_accepts(rid as int, units as int) {
            (
                s.request_next(rid as int, units as int),
                Some(s.request_next(rid as int, units as int).running_pid),
            )
        } else {
            (s, None)
        },
        Instruction::Release(rid, units) => if s.release_accepts(rid as int, units as int) {
            (
                s.release_next(rid as int, units as int),
                Some(s.release_next(rid as int, units as int).running_pid),
            )
        } else {
            (s, None)
        },
        Instruction::Timeout => (s.timeout_next(), Some(s.timeout_next().running_pid)),
        Instruction::Unknown => (s, None),
    }
}

/// The state that a sequence of instructions leads to from `s`, and
/// the results that they report, one for each instruction.
pub open spec fn run(s: SchedulerView, instructions: Seq<Instruction>) -> (
    SchedulerView,
    Seq<Option<usize>>,
)
    decreases instructions.len(),
{
    if instructions.len() == 0 {
        (s, Seq::empty())
    } else {
        let (before, results) = run(s, instructions.drop_last());
        let (after, result) = step(before, instructions.last());
        (after, results.push(result))
    }
}

/// The results of a batch: the results that its instructions report
/// when they are run from the state after a reset.
pub open spec fn batch_results(instructions: Seq<Instruction>) -> Seq<Option<usize>> {
    run(SchedulerView::initial(), instructions).1
}

/// Every instruction leads from a well-formed state to a well-formed one.
pub proof fn law_step_wf(s: SchedulerView, instruction: Instruction)
    requires
        s.wf(),
    ensures
        step(s, instruction).0.wf(),
{
    match instruction {
        Instruction::Init => {
            lemma_initial_wf();
        },
        Instruction::Create(priority) => {
            if s.create_accepts(priority as int) {
                lemma_create_wf(s, priority as int);
            }
        },
        Instruction::Destroy(pid) => {
            if s.destroy_accepts(pid as int) {
                lemma_destroy_wf(s, pid as int);
            }
        },
        Instruction::Request(rid, units) => {
            if s.request_accepts(rid as int, units as int) {
                lemma_request_wf(s, rid as int, units as int);
            }
        },
        Instruction::Release(rid, units) => {
            if s.release_accepts(rid as int, units as int) {
                lemma_release_wf(
                    s,
                    s.running_pid as int,
                    PCBResource { rid: rid as usize, units: units as usize },
                );
            }
        },
        Instruction::Timeout => {
            lemma_rotate_wf(s);
        },
        Instruction::Unknown => {},
    }
}

/// After any sequence of instructions, run from a well-formed state,
/// the state is well formed, and there is one result for each instruction.
pub proof fn law_run_wf(s: SchedulerView, instructions: Seq<Instruction>)
    requires
        s.wf(),
    ensures
        run(s, instructions).0.wf(),
        run(s, instructions).1.len() == instructions.len(),
    decreases instructions.len(),
{
    if instructions.len() > 0 {
        law_run_wf(s, instructions.drop_last());
        law_step_wf(run(s, instructions.drop_last()).0, instructions.last());
    }
}

/// After any sequence of instructions since the reset the state is well formed.
pub proof fn law_reachable_wf(instructions: Seq<Instruction>)
    ensures
        run(SchedulerView::initial(), instructions).0.wf(),
{
    lemma_initial_wf();
    law_run_wf(SchedulerView::initial(), instructions);
}

/// After any sequence of instructions since the reset, whichever of
/// them were accepted: every process is tied to the root by its chain
/// of parents; a process stands in a ready queue exactly if it is
/// ready, then once, in the queue of its priority and in no other;
/// and every unit of a class is available or held by some process.
pub proof fn law_always_in_order(instructions: Seq<Instruction>, p: int, r: int)
    ensures
        ({
            let s = run(SchedulerView::initial(), instructions).0;
            &&& s.wf()
            &&& s.live(p) ==> {
                &&& rooted_within(s.pcbs, p, 15)
                &&& forall|k: int|
                    0 <= k < 3 ==> (#[trigger] s.ready[k].contains(p as usize) <==> s.pcb(p).state
                        == PCBState::READY && s.pcb(p).priority == k)
                &&& forall|k: int| 0 <= k < 3 ==> #[trigger] s.ready[k].no_duplicates()
            }
            &&& 0 <= r < 4 ==> s.rcbs[r].units_available + s.units_held(r) == s.rcbs[r].inventory
        }),
{
    law_reachable_wf(instructions);
}

/// A reset after a reset changes nothing: from whatever state, two
/// resets lead where one leads, and report the same.
pub proof fn law_init_idempotent(s: SchedulerView)
    ensures
        step(step(s, Instruction::Init).0, Instruction::Init) == step(s, Instruction::Init),
        step(s, Instruction::Init).0 == SchedulerView::initial(),
{
}

/// Carries out one instruction.
pub fn handle_instruction(scheduler: &mut Scheduler, instruction: Instruction) -> (result: Option<
    usize,
>)
    requires
        old(scheduler).wf(),
    ensures
        final(scheduler).wf(),
        (final(scheduler)@, result) == step(old(scheduler)@, instruction),
{
    match instruction {
        Instruction::Init => scheduler.init(),
        Instruction::Create(priority) => scheduler.create(priority),
        Instruction::Destroy(pid) => scheduler.destroy(pid),
        Instruction::Request(rid, units) => scheduler.request(rid, units),
        Instruction::Release(rid, units) => scheduler.release(rid, units),
        Instruction::Timeout => scheduler.timeout(),
        Instruction::Unknown => None,
    }
}

/// Runs one batch: resets the scheduler, then carries out the
/// instructions in their order and collects their results.
pub fn handle_instruction_vector(
    scheduler: &mut Scheduler,
    instruction_vector: &Vec<Instruction>,
) -> (output: Vec<Option<usize>>)
    ensures
        final(scheduler).wf(),
        (final(scheduler)@, output@) == run(SchedulerView::initial(), instruction_vector@),
        output@ == batch_results(instruction_vector@),
        output@.len() == instruction_vector@.len(),
{
    let mut output: Vec<Option<usize>> = Vec::new();
    scheduler.init();
    let mut i: usize = 0;
    while i < instruction_vector.len()
        invariant
            i <= instruction_vector.len(),
            scheduler.wf(),
            output@.len() == i,
            (scheduler@, output@) == run(SchedulerView::initial(), instruction_vector@.take(i as int)),
        decreases instruction_vector.len() - i,
    {
        let result = handle_instruction(scheduler, instruction_vector[i]);
        proof {
            assert(instruction_vector@.take(i + 1).drop_last() =~= instruction_vector@.take(
                i as int,
            ));
        }
        output.push(result);
        i += 1;
    }
    proof {
        assert(instruction_vector@.take(i as int) =~= instruction_vector@);
    }
    output
}

/// The lines of a script, each as the sequences of bytes of its words.
pub open spec fn lines_view(lines: Vec<Vec<Vec<u8>>>) -> Seq<Seq<Seq<u8>>> {
    Seq::new(lines@.len(), |i: int| words_view(lines@[i]))
}

/// The batches of a script as sequences of instructions.
pub open spec fn batches_view(batches: Vec<Vec<Instruction>>) -> Seq<Seq<Instruction>> {
    Seq::new(batches@.len(), |i: int| batches@[i]@)
}

/// The batches that the lines of a script denote. A line without
/// words denotes no instruction and ends a batch; each run of lines
/// with words between two such lines, or between one and an end of
/// the script, is one batch. There is no script where a line with
/// words denotes no instruction.
pub open spec fn script_of(lines: Seq<Seq<Seq<u8>>>) -> Option<Seq<Seq<Instruction>>>
    decreases lines.len(),
{
    if lines.len() == 0 {
        Some(Seq::empty())
    } else {
        match script_of(lines.drop_last()) {
            None => None,
            Some(batches) => if lines.last().len() == 0 {
                Some(batches)
            } else {
                match instruction_of(lines.last()) {
                    None => None,
                    Some(instruction) => if lines.len() >= 2 && lines[lines.len() - 2].len() > 0 {
                        Some(batches.drop_last().push(batches.last().push(instruction)))
                    } else {
                        Some(batches.push(seq![instruction]))
                    },
                }
            },
        }
    }
}

/// The results of the batches of a script, batch by batch.
pub open spec fn script_results(batches: Seq<Seq<Instruction>>) -> Seq<Seq<Option<usize>>> {
    Seq::new(batches.len(), |i: int| batch_results(batches[i]))
}

/// The text that a script gives rise to: the results of its batches,
/// written as lines; nothing where the lines are no script.
pub open spec fn output_of(lines: Seq<Seq<Seq<u8>>>) -> Option<Seq<u8>> {
    match script_of(lines) {
        Some(batches) => Some(rendered_output(script_results(batches))),
        None => None,
    }
}

/// Reads the lines of a script, each given by its words, and groups
/// the instructions into batches; `None` where some line with words
/// denotes no instruction.
pub fn parse_script(lines: &Vec<Vec<Vec<u8>>>) -> (script: Option<Vec<Vec<Instruction>>>)
    ensures
        match script {
            Some(batches) => script_of(lines_view(*lines)) == Some(batches_view(batches)),
            None => script_of(lines_view(*lines)) is None,
        },
{
    let ghost all = lines_view(*lines);
    let mut instruction_vectors: Vec<Vec<Instruction>> = Vec::new();
    let mut current_vector: Vec<Instruction> = Vec::new();
    let mut i: usize = 0;
    while i < lines.len()
        invariant
            i <= lines.len(),
            all == lines_view(*lines),
            current_vector@.len() > 0 <==> i > 0 && all[i - 1].len() > 0,
            script_of(all.take(i as int)) == Some(
                if current_vector@.len() > 0 {
                    batches_view(instruction_vectors).push(current_vector@)
                } else {
                    batches_view(instruction_vectors)
                },
            ),
        decreases lines.len() - i,
    {
        let ghost current = current_vector@;
        assert(all.take(i + 1).drop_last() =~= all.take(i as int));
        if lines[i].len() == 0 {
            if current_vector.len() > 0 {
                instruction_vectors.push(current_vector);
                current_vector = Vec::new();
            }
        } else {
            match parse_instruction(&lines[i]) {
                Some(instruction) => {
                    current_vector.push(instruction);
                    proof {
                        if current.len() == 0 {
                            assert(current_vector@ =~= seq![instruction]);
                        }
                    }
                },
                None => {
                    proof {
                        lemma_script_fails(all, i + 1);
                    }
                    return None;
                },
            }
        }
        i += 1;
    }
    assert(all.take(lines.len() as int) =~= all);
    if current_vector.len() > 0 {
        instruction_vectors.push(current_vector);
    }
    Some(instruction_vectors)
}

/// Lines of which a part from the start is no script are no script.
pub proof fn lemma_script_fails(lines: Seq<Seq<Seq<u8>>>, n: int)
    requires
        0 <= n <= lines.len(),
        script_of(lines.take(n)) is None,
    ensures
        script_of(lines) is None,
    decreases lines.len() - n,
{
    if n < lines.len() {
        assert(lines.take(n + 1).drop_last() =~= lines.take(n));
        lemma_script_fails(lines, n + 1);
    } else {
        assert(lines.take(n) =~= lines);
    }
}

/// Runs the batches of a script one after the other against one
/// scheduler, each from the state after a reset, and collects the
/// results of each.
pub fn run_script(batches: &Vec<Vec<Instruction>>) -> (output: Vec<Vec<Option<usize>>>)
    ensures
        results_view(output) == script_results(batches_view(*batches)),
{
    let mut scheduler = Scheduler::new();
    let mut output: Vec<Vec<Option<usize>>> = Vec::new();
    let mut i: usize = 0;
    while i < batches.len()
        invariant
            i <= batches.len(),
            output@.len() == i,
            forall|j: int| 0 <= j < i ==> (#[trigger] output@[j])@ == batch_results(batches@[j]@),
        decreases batches.len() - i,
    {
        let results = handle_instruction_vector(&mut scheduler, &batches[i]);
        output.push(results);
        i += 1;
    }
    output
}

/// Runs a script given by its lines, each line by its words: the
/// results of its batches as text, or `None` where some line with
/// words denotes no instruction.
pub fn interpret(lines: &Vec<Vec<Vec<u8>>>) -> (text: Option<Vec<u8>>)
    ensures
        match text {
            Some(bytes) => output_of(lines_view(*lines)) == Some(bytes@),
            None => output_of(lines_view(*lines)) is None,
        },
{
    match parse_script(lines) {
        Some(batches) => {
            let output = run_script(&batches);
            Some(render_output(&output))
        },
        None => None,
    }
}

} // verus!
