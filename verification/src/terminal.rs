//! Launching a terminal emulator: the first of a list of programs that can be started.
use vstd::prelude::*;

verus! {

/// What came of starting a program.
#[derive(Clone, Copy, Debug, PartialEq, Eq, Structural, Hash)]
pub enum SpawnOutcome {
    /// It runs, under this process number.
    Started(u32),
    Failed,
}

/// What to do next to launch a terminal.
#[derive(Clone, Copy, Debug, PartialEq, Eq)]
pub enum LaunchStep {
    /// Start `program`, without input or output. It is the program with the number `attempt`.
    Spawn { attempt: usize, program: &'static str },
    /// Nothing: a terminal runs, under this process number.
    Launched { pid: u32 },
    /// Nothing: no program could be started.
    GiveUp,
}

/// How far the launch of a terminal has come.
pub enum LaunchPhase {
    Trying(nat),
    Launched(u32),
    GivenUp,
}

/// The programs that are tried, in this order.
pub open spec fn terminals() -> Seq<Seq<char>> {
    seq!["alacritty"@, "foot"@, "weston-terminal"@, "kitty"@, "st"@, "xterm"@]
}

/// How far the launch has come when the program `attempt` is next.
pub open spec fn phase_before(attempt: nat) -> LaunchPhase {
    if attempt < terminals().len() {
        LaunchPhase::Trying(attempt)
    } else {
        LaunchPhase::GivenUp
    }
}

/// How far the launch has come when the program `attempt` has been tried.
pub open spec fn phase_after(attempt: nat, outcome: SpawnOutcome) -> LaunchPhase {
    match outcome {
        SpawnOutcome::Started(pid) => LaunchPhase::Launched(pid),
        SpawnOutcome::Failed => phase_before(attempt + 1),
    }
}

impl LaunchStep {
    /// The phase that the step belongs to.
    pub open spec fn phase(self) -> LaunchPhase {
        match self {
            LaunchStep::Spawn { attempt, .. } => LaunchPhase::Trying(attempt as nat),
            LaunchStep::Launched { pid } => LaunchPhase::Launched(pid),
            LaunchStep::GiveUp => LaunchPhase::GivenUp,
        }
    }

    /// A program that is to be started is the one that the attempt's number stands for.
    pub open spec fn wf(self) -> bool {
        self matches LaunchStep::Spawn { attempt, program } ==> attempt < terminals().len()
            && program@ == terminals()[attempt as int]
    }
}

/// The step that tries the program `attempt`, or gives up where there is none.
fn try_program(attempt: usize) -> (step: LaunchStep)
    ensures
        step.wf(),
        step.phase() == phase_before(attempt as nat),
        step is Spawn <==> attempt < 6,
        step is GiveUp <==> attempt >= 6,
        step matches LaunchStep::Spawn { attempt: number, program } ==> {
            &&& number == attempt
            &&& number == 0 ==> program@ == "alacritty"@
            &&& number == 1 ==> program@ == "foot"@
            &&& number == 2 ==> program@ == "weston-terminal"@
            &&& number == 3 ==> program@ == "kitty"@
            &&& number == 4 ==> program@ == "st"@
            &&& number == 5 ==> program@ == "xterm"@
        },
{
    let programs: [&'static str; 6] = [
        "alacritty",
        "foot",
        "weston-terminal",
        "kitty",
        "st",
        "xterm",
    ];
    if attempt < 6 {
        LaunchStep::Spawn { attempt, program: programs[attempt] }
    } else {
        LaunchStep::GiveUp
    }
}

/// Begins to launch a terminal: the first program is to be started.
pub fn spawn_terminal() -> (step: LaunchStep)
    ensures
        step.wf(),
        step.phase() == LaunchPhase::Trying(0),
        step matches LaunchStep::Spawn { attempt, program } && attempt == 0 && program@
            == "alacritty"@,
{
    try_program(0)
}

/// Goes on launching a terminal once the program `attempt` has been tried: a program that runs
/// ends the launch, and after one that failed the next is tried.
pub fn after_spawn(attempt: usize, outcome: SpawnOutcome) -> (step: LaunchStep)
    requires
        attempt < terminals().len(),
    ensures
        step.wf(),
        step.phase() == phase_after(attempt as nat, outcome),
        outcome matches SpawnOutcome::Started(pid) ==> step == (LaunchStep::Launched { pid }),
        outcome is Failed && attempt >= 5 ==> step == LaunchStep::GiveUp,
        outcome is Failed && attempt < 5 ==> (step matches LaunchStep::Spawn {
            attempt: number,
            program,
        } && number == attempt + 1 && (number == 1 ==> program@ == "foot"@) && (number == 2
            ==> program@ == "weston-terminal"@) && (number == 3 ==> program@ == "kitty"@) && (
        number == 4 ==> program@ == "st"@) && (number == 5 ==> program@ == "xterm"@)),
{
    match outcome {
        SpawnOutcome::Started(pid) => LaunchStep::Launched { pid },
        SpawnOutcome::Failed => try_program(attempt + 1),
    }
}

/// How the launch ends from the program `attempt` on, where `outcomes` says of each program what
/// would come of starting it.
pub open spec fn launch(outcomes: Seq<SpawnOutcome>, attempt: nat) -> LaunchPhase
    decreases terminals().len() - attempt,
{
    match phase_before(attempt) {
        LaunchPhase::Trying(_) => match phase_after(attempt, outcomes[attempt as int]) {
            LaunchPhase::Trying(_) => launch(outcomes, attempt + 1),
            end => end,
        },
        end => end,
    }
}

/// Each program is tried in its turn: a program that runs ends the launch at once, under its own
/// process number, and one that failed leaves the launch to the programs behind it, until there is
/// none left.
pub proof fn law_failed_program_hands_on(outcomes: Seq<SpawnOutcome>, attempt: nat, pid: u32)
    requires
        outcomes.len() == 6,
    ensures
        terminals().len() == 6,
        attempt < 6 && outcomes[attempt as int] == SpawnOutcome::Started(pid) ==> launch(
            outcomes,
            attempt,
        ) == LaunchPhase::Launched(pid),
        attempt < 6 && outcomes[attempt as int] == SpawnOutcome::Failed ==> launch(
            outcomes,
            attempt,
        ) == launch(outcomes, attempt + 1),
        attempt >= 6 ==> launch(outcomes, attempt) == LaunchPhase::GivenUp,
{
}

/// The terminal that is launched is the first of the list that can be started; the launch is
/// given up exactly when none can.
pub proof fn law_first_terminal_that_starts(outcomes: Seq<SpawnOutcome>)
    requires
        outcomes.len() == terminals().len(),
    ensures
        forall|i: int|
            0 <= i < outcomes.len() && (#[trigger] outcomes[i]) is Started && (forall|j: int|
                0 <= j < i ==> (#[trigger] outcomes[j]) is Failed) ==> launch(outcomes, 0)
                == LaunchPhase::Launched(outcomes[i]->Started_0),
        launch(outcomes, 0) == LaunchPhase::GivenUp <==> forall|i: int|
            0 <= i < outcomes.len() ==> (#[trigger] outcomes[i]) is Failed,
{
    lemma_launch(outcomes, 0);
}

proof fn lemma_launch(outcomes: Seq<SpawnOutcome>, attempt: nat)
    requires
        outcomes.len() == terminals().len(),
        attempt <= outcomes.len(),
    ensures
        forall|i: int|
            attempt <= i < outcomes.len() && (#[trigger] outcomes[i]) is Started && (forall|j: int|
                attempt <= j < i ==> (#[trigger] outcomes[j]) is Failed) ==> launch(
                outcomes,
                attempt,
            ) == LaunchPhase::Launched(outcomes[i]->Started_0),
        launch(outcomes, attempt) == LaunchPhase::GivenUp <==> forall|i: int|
            attempt <= i < outcomes.len() ==> (#[trigger] outcomes[i]) is Failed,
    decreases outcomes.len() - attempt,
{
    if attempt < outcomes.len() {
        lemma_launch(outcomes, attempt + 1);
    }
}

} // verus!
