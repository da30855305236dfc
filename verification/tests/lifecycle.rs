use zktx::error::Error;
use zktx::params::{ensure_range_param, ensure_range_param_start, ParamAction, ParamEvent, ParamState};

fn drive(events: &[ParamEvent]) -> (ParamState, Vec<ParamAction>) {
    let (mut state, first) = ensure_range_param_start();
    let mut actions = vec![first];
    for event in events {
        let (next, action) = ensure_range_param(state, *event);
        state = next;
        actions.push(action);
    }
    (state, actions)
}

#[test]
fn lifecycle_starts_by_probing_the_directory() {
    assert_eq!(
        ensure_range_param_start(),
        (ParamState::ProbingDirectory, ParamAction::ProbeDirectory)
    );
}

#[test]
fn nothing_is_changed_where_the_parameters_exist() {
    let (state, actions) = drive(&[ParamEvent::Present, ParamEvent::Present]);
    assert_eq!(state, ParamState::Ready);
    assert_eq!(
        actions,
        vec![ParamAction::ProbeDirectory, ParamAction::ProbeFile, ParamAction::Done]
    );
}

#[test]
fn everything_is_made_where_nothing_exists() {
    let (state, actions) = drive(&[
        ParamEvent::Absent,
        ParamEvent::Succeeded,
        ParamEvent::Absent,
        ParamEvent::Succeeded,
        ParamEvent::Succeeded,
    ]);
    assert_eq!(state, ParamState::Ready);
    assert_eq!(
        actions,
        vec![
            ParamAction::ProbeDirectory,
            ParamAction::CreateDirectory,
            ParamAction::ProbeFile,
            ParamAction::Generate,
            ParamAction::Write,
            ParamAction::Done,
        ]
    );
}

#[test]
fn missing_file_in_an_existing_directory_is_generated() {
    let (state, actions) = drive(&[
        ParamEvent::Present,
        ParamEvent::Absent,
        ParamEvent::Succeeded,
        ParamEvent::Succeeded,
    ]);
    assert_eq!(state, ParamState::Ready);
    assert_eq!(
        actions,
        vec![
            ParamAction::ProbeDirectory,
            ParamAction::ProbeFile,
            ParamAction::Generate,
            ParamAction::Write,
            ParamAction::Done,
        ]
    );
}

#[test]
fn store_failures_are_parameter_errors() {
    let (state, actions) = drive(&[ParamEvent::Absent, ParamEvent::Failed]);
    assert_eq!(state, ParamState::Failed(Error::ParamInit));
    assert_eq!(actions.last(), Some(&ParamAction::Fail(Error::ParamInit)));
    let (state, _) = drive(&[ParamEvent::Failed]);
    assert_eq!(state, ParamState::Failed(Error::ParamInit));
    let (state, _) = drive(&[ParamEvent::Present, ParamEvent::Failed]);
    assert_eq!(state, ParamState::Failed(Error::ParamInit));
    let (state, _) = drive(&[
        ParamEvent::Present,
        ParamEvent::Absent,
        ParamEvent::Succeeded,
        ParamEvent::Failed,
    ]);
    assert_eq!(state, ParamState::Failed(Error::ParamInit));
}

#[test]
fn failed_setup_is_a_synthesis_error() {
    let (state, actions) = drive(&[ParamEvent::Present, ParamEvent::Absent, ParamEvent::Failed]);
    assert_eq!(state, ParamState::Failed(Error::Synthesis));
    assert_eq!(actions.last(), Some(&ParamAction::Fail(Error::Synthesis)));
}

#[test]
fn report_that_answers_no_question_is_a_parameter_error() {
    let (state, _) = drive(&[ParamEvent::Succeeded]);
    assert_eq!(state, ParamState::Failed(Error::ParamInit));
    let (state, _) = drive(&[ParamEvent::Absent, ParamEvent::Present]);
    assert_eq!(state, ParamState::Failed(Error::ParamInit));
    let (state, _) = drive(&[ParamEvent::Present, ParamEvent::Absent, ParamEvent::Absent]);
    assert_eq!(state, ParamState::Failed(Error::ParamInit));
}

#[test]
fn final_states_stay() {
    for event in [ParamEvent::Present, ParamEvent::Absent, ParamEvent::Succeeded, ParamEvent::Failed] {
        assert_eq!(
            ensure_range_param(ParamState::Ready, event),
            (ParamState::Ready, ParamAction::Done)
        );
        assert_eq!(
            ensure_range_param(ParamState::Failed(Error::Synthesis), event),
            (ParamState::Failed(Error::Synthesis), ParamAction::Fail(Error::Synthesis))
        );
    }
}
