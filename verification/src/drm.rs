//! Choosing the connector and mode that the screen is shown on.
use vstd::prelude::*;

use crate::geometry::Size;

verus! {

/// What a device says about one of its connectors.
#[derive(Clone, Copy, Debug, PartialEq, Eq, Hash)]
pub struct ConnectorInfo {
    /// Whether a screen is connected.
    pub connected: bool,
    /// How many modes the connector offers.
    pub mode_count: usize,
    /// The screen's width and height in millimetres, where they are known.
    pub size_mm: Option<(u32, u32)>,
}

/// What came of asking a device about one of its connectors.
#[derive(Clone, Copy, Debug, PartialEq, Eq, Hash)]
pub enum QueryOutcome {
    Answered(ConnectorInfo),
    /// The device could not be asked.
    Failed,
}

/// The connector and the mode that the screen is shown with.
#[derive(Clone, Copy, Debug, PartialEq, Eq, Structural, Hash)]
pub struct ConnectorMode {
    pub crtc: u32,
    pub connector: u32,
    /// The number of the mode in the connector's list: the first.
    pub mode: usize,
    /// The screen's size in millimetres; zero where it is not known.
    pub physical_size: Size,
}

/// Why a device has nothing to show a screen on.
#[derive(Clone, Copy, Debug, PartialEq, Eq, Structural, Hash)]
pub enum OutputError {
    NoCrtc,
    NoConnectedMode,
}

/// What to do next to find a connector.
#[derive(Clone, Copy, Debug, PartialEq, Eq, Structural, Hash)]
pub enum SearchStep {
    /// Ask the device about `connector`, which is the one with the number `index`.
    Query { index: usize, connector: u32 },
    /// Nothing: the search is over.
    Found(ConnectorMode),
    /// Nothing: the search has failed.
    Failed(OutputError),
    /// Nothing: the device could not be asked about the connector with the number `index`, and
    /// its own error ends the search.
    Aborted { index: usize },
}

impl ConnectorInfo {
    /// The connector can show a screen.
    pub open spec fn usable(self) -> bool {
        self.connected && self.mode_count > 0
    }

    /// The screen's size is within the range of a [`Size`].
    pub open spec fn size_fits(self) -> bool {
        self.size_mm matches Some(size) ==> size.0 <= i32::MAX && size.1 <= i32::MAX
    }

    /// The screen's size in millimetres; zero where it is not known.
    pub open spec fn physical_size(self) -> Size {
        match self.size_mm {
            Some(size) => Size { w: size.0 as i32, h: size.1 as i32 },
            None => Size { w: 0, h: 0 },
        }
    }
}

impl OutputError {
    /// The message for the user.
    pub fn message(&self) -> (text: &'static str)
        ensures
            text@ == (match *self {
                OutputError::NoCrtc => "no CRTC handles available on DRM device"@,
                OutputError::NoConnectedMode => "no connected connector with a mode"@,
            }),
    {
        match self {
            OutputError::NoCrtc => "no CRTC handles available on DRM device",
            OutputError::NoConnectedMode => "no connected connector with a mode",
        }
    }
}

/// The name that the screen's make is given under.
pub fn output_make() -> (make: &'static str)
    ensures
        make@ == "beanwm"@,
{
    "beanwm"
}

/// The step that asks about connector `index`, or fails where there is none.
pub open spec fn step_before(connectors: Seq<u32>, index: int) -> SearchStep {
    if index < connectors.len() {
        SearchStep::Query { index: index as usize, connector: connectors[index] }
    } else {
        SearchStep::Failed(OutputError::NoConnectedMode)
    }
}

/// The step that follows what came of asking about connector `index`: one that can show a screen
/// is taken, with its first mode, one that cannot is passed over, and one that could not be asked
/// about ends the search.
pub open spec fn step_after(
    crtcs: Seq<u32>,
    connectors: Seq<u32>,
    index: int,
    outcome: QueryOutcome,
) -> SearchStep {
    match outcome {
        QueryOutcome::Failed => SearchStep::Aborted { index: index as usize },
        QueryOutcome::Answered(info) => if info.usable() {
            found(crtcs, connectors, index, info)
        } else {
            step_before(connectors, index + 1)
        },
    }
}

/// The end of a search that takes connector `index`.
pub open spec fn found(
    crtcs: Seq<u32>,
    connectors: Seq<u32>,
    index: int,
    info: ConnectorInfo,
) -> SearchStep {
    SearchStep::Found(
        ConnectorMode {
            crtc: crtcs[0],
            connector: connectors[index],
            mode: 0,
            physical_size: info.physical_size(),
        },
    )
}

/// The first step on a device: it fails where the device has no CRTC.
pub open spec fn first_step(crtcs: Seq<u32>, connectors: Seq<u32>) -> SearchStep {
    if crtcs.len() == 0 {
        SearchStep::Failed(OutputError::NoCrtc)
    } else {
        step_before(connectors, 0)
    }
}

/// Begins to look for the first connector that can show a screen, on the device's first CRTC.
pub fn first_connected_mode(crtcs: &Vec<u32>, connectors: &Vec<u32>) -> (step: SearchStep)
    ensures
        step == first_step(crtcs@, connectors@),
        crtcs@.len() == 0 ==> step == SearchStep::Failed(OutputError::NoCrtc),
        crtcs@.len() > 0 && connectors@.len() == 0 ==> step == SearchStep::Failed(
            OutputError::NoConnectedMode,
        ),
        crtcs@.len() > 0 && connectors@.len() > 0 ==> step == (SearchStep::Query {
            index: 0,
            connector: connectors@[0],
        }),
{
    if crtcs.len() == 0 {
        return SearchStep::Failed(OutputError::NoCrtc);
    }
    query(connectors, 0)
}

/// Goes on looking once the device has been asked about connector `index`.
pub fn after_query(
    crtcs: &Vec<u32>,
    connectors: &Vec<u32>,
    index: usize,
    outcome: QueryOutcome,
) -> (step: SearchStep)
    requires
        crtcs@.len() > 0,
        index < connectors.len(),
        outcome matches QueryOutcome::Answered(info) ==> (info.usable() ==> info.size_fits()),
    ensures
        step == step_after(crtcs@, connectors@, index as int, outcome),
        outcome is Failed ==> step == (SearchStep::Aborted { index }),
        outcome matches QueryOutcome::Answered(info) ==> (info.connected && info.mode_count > 0
            ==> (step matches SearchStep::Found(taken) && taken.crtc == crtcs@[0]
            && taken.connector == connectors@[index as int] && taken.mode == 0 && (info.size_mm
            is None ==> taken.physical_size.w == 0 && taken.physical_size.h == 0) && (
        info.size_mm matches Some(size) ==> taken.physical_size.w == size.0
            && taken.physical_size.h == size.1))),
        outcome matches QueryOutcome::Answered(info) ==> (!info.connected || info.mode_count == 0
            ==> if index + 1 < connectors@.len() {
            step matches SearchStep::Query { index: next, connector } && next == index + 1
                && connector == connectors@[index + 1]
        } else {
            step == SearchStep::Failed(OutputError::NoConnectedMode)
        }),
{
    let info: ConnectorInfo = match outcome {
        QueryOutcome::Answered(info) => info,
        QueryOutcome::Failed => {
            return SearchStep::Aborted { index };
        },
    };
    if !info.connected || info.mode_count == 0 {
        return query(connectors, index + 1);
    }
    let (width, height): (u32, u32) = match info.size_mm {
        Some(size) => size,
        None => (0, 0),
    };
    SearchStep::Found(
        ConnectorMode {
            crtc: crtcs[0],
            connector: connectors[index],
            mode: 0,
            physical_size: Size { w: width as i32, h: height as i32 },
        },
    )
}

/// The step that asks about connector `index`, or fails where there is none.
fn query(connectors: &Vec<u32>, index: usize) -> (step: SearchStep)
    ensures
        step == step_before(connectors@, index as int),
{
    if index < connectors.len() {
        SearchStep::Query { index, connector: connectors[index] }
    } else {
        SearchStep::Failed(OutputError::NoConnectedMode)
    }
}

/// How the search ends from connector `index` on, where `outcomes` says of each connector what
/// would come of asking about it.
pub open spec fn search_from(
    crtcs: Seq<u32>,
    connectors: Seq<u32>,
    outcomes: Seq<QueryOutcome>,
    index: int,
) -> SearchStep
    decreases connectors.len() - index,
{
    match step_before(connectors, index) {
        SearchStep::Query { .. } => match step_after(crtcs, connectors, index, outcomes[index]) {
            SearchStep::Query { .. } => search_from(crtcs, connectors, outcomes, index + 1),
            end => end,
        },
        end => end,
    }
}

/// How the search on a device ends.
pub open spec fn search(
    crtcs: Seq<u32>,
    connectors: Seq<u32>,
    outcomes: Seq<QueryOutcome>,
) -> SearchStep {
    match first_step(crtcs, connectors) {
        SearchStep::Query { .. } => search_from(crtcs, connectors, outcomes, 0),
        end => end,
    }
}

/// The connector cannot show a screen, and the device says so.
pub open spec fn passed_over(outcome: QueryOutcome) -> bool {
    outcome matches QueryOutcome::Answered(info) && !info.usable()
}

/// On a device with a CRTC the search ends at the first connector that is not passed over: that
/// connector is taken, with its first mode, or the failure to ask about it ends the search. It
/// fails for want of a connector exactly when all are passed over. A device without a CRTC is
/// refused whatever its connectors are.
pub proof fn law_first_usable_connector(
    crtcs: Seq<u32>,
    connectors: Seq<u32>,
    outcomes: Seq<QueryOutcome>,
)
    requires
        outcomes.len() == connectors.len(),
    ensures
        search(crtcs, connectors, outcomes) == SearchStep::Failed(OutputError::NoCrtc)
            <==> crtcs.len() == 0,
        crtcs.len() > 0 ==> forall|i: int|
            0 <= i < outcomes.len() && !passed_over(#[trigger] outcomes[i]) && (forall|j: int|
                0 <= j < i ==> passed_over(#[trigger] outcomes[j])) ==> search(
                crtcs,
                connectors,
                outcomes,
            ) == ends_at(crtcs, connectors, i, outcomes[i]),
        crtcs.len() > 0 ==> (search(crtcs, connectors, outcomes) == SearchStep::Failed(
            OutputError::NoConnectedMode,
        ) <==> forall|i: int| 0 <= i < outcomes.len() ==> passed_over(#[trigger] outcomes[i])),
{
    lemma_search(crtcs, connectors, outcomes, 0);
}

/// A search takes the first connector that the device calls connected and offers a mode for, and
/// no later one: it is shown with the device's first CRTC, the connector's first mode and the size
/// that the device gave, or none. A connector that the device fails to answer for ends the search
/// where nothing before it was taken.
pub proof fn law_search_takes_the_first_answer(
    crtcs: Seq<u32>,
    connectors: Seq<u32>,
    outcomes: Seq<QueryOutcome>,
    i: int,
)
    requires
        outcomes.len() == connectors.len(),
        crtcs.len() > 0,
        0 <= i <= outcomes.len(),
        forall|j: int|
            0 <= j < i ==> ((#[trigger] outcomes[j]) matches QueryOutcome::Answered(info) && !(
            info.connected && info.mode_count > 0)),
    ensures
        i == outcomes.len() ==> search(crtcs, connectors, outcomes) == SearchStep::Failed(
            OutputError::NoConnectedMode,
        ),
        i < outcomes.len() && outcomes[i] is Failed ==> search(crtcs, connectors, outcomes) == (
        SearchStep::Aborted { index: i as usize }),
        i < outcomes.len() ==> (outcomes[i] matches QueryOutcome::Answered(info) ==> (
        info.connected && info.mode_count > 0 ==> (search(crtcs, connectors, outcomes) matches
            SearchStep::Found(taken) && taken.crtc == crtcs[0] && taken.connector == connectors[i]
            && taken.mode == 0 && (info.size_mm is None ==> taken.physical_size.w == 0
            && taken.physical_size.h == 0) && (info.size_mm matches Some(size) ==> (size.0
            <= i32::MAX && size.1 <= i32::MAX ==> taken.physical_size.w == size.0
            && taken.physical_size.h == size.1))))),
        search(Seq::empty(), connectors, outcomes) == SearchStep::Failed(OutputError::NoCrtc),
        i < outcomes.len() ==> (outcomes[i] matches QueryOutcome::Answered(info) ==> (
        info.size_fits() <==> (info.size_mm matches Some(size) ==> size.0 <= i32::MAX && size.1
            <= i32::MAX))),
{
    law_first_usable_connector(crtcs, connectors, outcomes);
    law_first_usable_connector(Seq::empty(), connectors, outcomes);
    assert forall|j: int| 0 <= j < i implies passed_over(#[trigger] outcomes[j]) by {}
    if i < outcomes.len() {
        assert(passed_over(outcomes[i]) || search(crtcs, connectors, outcomes) == ends_at(
            crtcs,
            connectors,
            i,
            outcomes[i],
        ));
    }
}

/// How a search ends at connector `i`, which is not passed over.
pub open spec fn ends_at(
    crtcs: Seq<u32>,
    connectors: Seq<u32>,
    i: int,
    outcome: QueryOutcome,
) -> SearchStep {
    match outcome {
        QueryOutcome::Answered(info) => found(crtcs, connectors, i, info),
        QueryOutcome::Failed => SearchStep::Aborted { index: i as usize },
    }
}

proof fn lemma_search(
    crtcs: Seq<u32>,
    connectors: Seq<u32>,
    outcomes: Seq<QueryOutcome>,
    index: int,
)
    requires
        outcomes.len() == connectors.len(),
        0 <= index <= outcomes.len(),
    ensures
        forall|i: int|
            index <= i < outcomes.len() && !passed_over(#[trigger] outcomes[i]) && (forall|j: int|
                index <= j < i ==> passed_over(#[trigger] outcomes[j])) ==> search_from(
                crtcs,
                connectors,
                outcomes,
                index,
            ) == ends_at(crtcs, connectors, i, outcomes[i]),
        search_from(crtcs, connectors, outcomes, index) == SearchStep::Failed(
            OutputError::NoConnectedMode,
        ) <==> forall|i: int| index <= i < outcomes.len() ==> passed_over(#[trigger] outcomes[i]),
        search_from(crtcs, connectors, outcomes, index) != SearchStep::Failed(OutputError::NoCrtc),
    decreases outcomes.len() - index,
{
    if index < outcomes.len() {
        lemma_search(crtcs, connectors, outcomes, index + 1);
    }
}

} // verus!
