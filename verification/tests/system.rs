use beanwm::drm::{
    after_query, first_connected_mode, output_make, ConnectorInfo, ConnectorMode, OutputError,
    QueryOutcome, SearchStep,
};
use beanwm::event_loop::{is_reported, LoopError};
use beanwm::geometry::Size;
use beanwm::terminal::{after_spawn, spawn_terminal, LaunchStep, SpawnOutcome};
use beanwm::udev::{added_path, UdevEvent};

fn launch(outcomes: &[SpawnOutcome]) -> (Vec<&'static str>, LaunchStep) {
    let mut tried = vec![];
    let mut step = spawn_terminal();
    while let LaunchStep::Spawn { attempt, program } = step {
        tried.push(program);
        step = after_spawn(attempt, outcomes[attempt]);
    }
    (tried, step)
}

fn search(crtcs: &Vec<u32>, connectors: &Vec<u32>, outcomes: &[QueryOutcome]) -> SearchStep {
    let mut step = first_connected_mode(crtcs, connectors);
    while let SearchStep::Query { index, connector } = step {
        assert_eq!(connector, connectors[index]);
        step = after_query(crtcs, connectors, index, outcomes[index]);
    }
    step
}

fn info(connected: bool, mode_count: usize, size_mm: Option<(u32, u32)>) -> QueryOutcome {
    QueryOutcome::Answered(ConnectorInfo { connected, mode_count, size_mm })
}

#[test]
fn the_first_terminal_that_starts_is_launched() {
    let failed = SpawnOutcome::Failed;
    let started = SpawnOutcome::Started(42);
    let other = SpawnOutcome::Started(7);
    assert_eq!(
        launch(&[started, other, failed, failed, failed, failed]),
        (vec!["alacritty"], LaunchStep::Launched { pid: 42 })
    );
    assert_eq!(
        launch(&[failed, failed, started, other, failed, failed]),
        (vec!["alacritty", "foot", "weston-terminal"], LaunchStep::Launched { pid: 42 })
    );
    assert_eq!(
        launch(&[failed, failed, failed, failed, failed, started]).1,
        LaunchStep::Launched { pid: 42 }
    );
}

#[test]
fn the_launch_is_given_up_after_the_last_terminal() {
    assert_eq!(
        launch(&[SpawnOutcome::Failed; 6]),
        (
            vec!["alacritty", "foot", "weston-terminal", "kitty", "st", "xterm"],
            LaunchStep::GiveUp
        )
    );
}

#[test]
fn the_first_connected_connector_with_a_mode_is_taken() {
    let infos = [
        info(false, 3, None),
        info(true, 0, None),
        info(true, 3, Some((527, 296))),
        info(true, 3, Some((1, 1))),
    ];
    assert_eq!(
        search(&vec![70, 71], &vec![31, 32, 33, 34], &infos),
        SearchStep::Found(ConnectorMode {
            crtc: 70,
            connector: 33,
            mode: 0,
            physical_size: Size { w: 527, h: 296 }
        })
    );
}

#[test]
fn an_unknown_screen_size_is_zero() {
    assert_eq!(
        search(&vec![1], &vec![2], &[info(true, 3, None)]),
        SearchStep::Found(ConnectorMode {
            crtc: 1,
            connector: 2,
            mode: 0,
            physical_size: Size { w: 0, h: 0 }
        })
    );
}

#[test]
fn a_device_without_a_crtc_is_refused() {
    assert_eq!(
        first_connected_mode(&vec![], &vec![5]),
        SearchStep::Failed(OutputError::NoCrtc)
    );
    assert_eq!(OutputError::NoCrtc.message(), "no CRTC handles available on DRM device");
}

#[test]
fn a_device_without_a_connected_screen_is_refused() {
    let failed = SearchStep::Failed(OutputError::NoConnectedMode);
    assert_eq!(search(&vec![1], &vec![], &[]), failed);
    let infos = [info(false, 3, Some((4000000000, 1))), info(true, 0, None)];
    assert_eq!(search(&vec![1], &vec![2, 3], &infos), failed);
    assert_eq!(OutputError::NoConnectedMode.message(), "no connected connector with a mode");
}

#[test]
fn only_an_added_device_has_a_path() {
    let path = vec![47, 100, 101, 118, 255];
    assert_eq!(
        added_path(&UdevEvent::Added { device_id: 1, path: path.clone() }),
        Some(path)
    );
    assert_eq!(added_path(&UdevEvent::Changed { device_id: 1 }), None);
    assert_eq!(added_path(&UdevEvent::Removed { device_id: 1 }), None);
}

#[test]
fn clients_that_go_away_are_not_reported() {
    assert!(!is_reported(LoopError::BrokenPipe));
    assert!(!is_reported(LoopError::ConnectionReset));
    assert!(!is_reported(LoopError::ConnectionAborted));
    assert!(!is_reported(LoopError::UnexpectedEof));
    assert!(is_reported(LoopError::Other));
}

#[test]
fn a_failed_query_ends_the_search() {
    let outcomes = [info(false, 3, None), QueryOutcome::Failed, info(true, 3, None)];
    assert_eq!(
        search(&vec![1], &vec![2, 3, 4], &outcomes),
        SearchStep::Aborted { index: 1 }
    );
    let later = [info(true, 1, None), QueryOutcome::Failed];
    assert_eq!(
        search(&vec![1], &vec![2, 3], &later),
        SearchStep::Found(ConnectorMode {
            crtc: 1,
            connector: 2,
            mode: 0,
            physical_size: Size { w: 0, h: 0 }
        })
    );
}

#[test]
fn the_make_of_the_screen_is_the_compositor() {
    assert_eq!(output_make(), "beanwm");
}
