use mbim_connect::addr::Ipv4Address;
use mbim_connect::sequencer::{finish_run, process_step_output, step_invocation_args,
    SequencerState};
use mbim_connect::ConfigError;

const DEVICE: &[u8] = b"/dev/cdc-wdm0";

/// Runs the fixed sequence against canned step outputs, recording
/// the argument list of every invocation actually made.
fn drive(
    steps: &[&[u8]],
    outputs: &[(bool, &[u8], &[u8])],
) -> (Result<SequencerState, ConfigError>, Vec<Vec<Vec<u8>>>) {
    let mut state = SequencerState::PendingTransaction(0);
    let mut invocations: Vec<Vec<Vec<u8>>> = Vec::new();
    for (i, step) in steps.iter().enumerate() {
        match step_invocation_args(&state, step, DEVICE) {
            None => continue,
            Some(args) => {
                invocations.push(args);
                let (success, stdout, stderr) = outputs[i];
                match process_step_output(state, success, stdout, stderr) {
                    Ok(next) => state = next,
                    Err(e) => return (Err(e), invocations),
                }
            }
        }
    }
    (Ok(state), invocations)
}

#[test]
fn pending_zero_has_no_session_argument() {
    let state = SequencerState::PendingTransaction(0);
    let args = step_invocation_args(&state, b"--attach-packet-service", DEVICE).unwrap();
    assert_eq!(
        args,
        vec![
            b"--attach-packet-service".to_vec(),
            b"--no-close".to_vec(),
            b"-d".to_vec(),
            DEVICE.to_vec(),
        ]
    );
}

#[test]
fn pending_nonzero_carries_the_session() {
    let state = SequencerState::PendingTransaction(17);
    let args = step_invocation_args(&state, b"--connect", DEVICE).unwrap();
    assert_eq!(
        args,
        vec![
            b"--connect".to_vec(),
            b"--no-open=17".to_vec(),
            b"--no-close".to_vec(),
            b"-d".to_vec(),
            DEVICE.to_vec(),
        ]
    );
}

#[test]
fn transaction_id_threads_through_the_steps() {
    // step 1 yields a transaction id, step 2 a different one
    // (overwriting), step 3 a full configuration
    let steps: [&[u8]; 3] = [b"--step-one", b"--step-two", b"--step-three"];
    let outputs: [(bool, &[u8], &[u8]); 3] = [
        (true, b"TRID: '5'\n", b""),
        (true, b"TRID: '9'\n", b""),
        (true, b"IP [0]: '10.0.0.2/24'\nGateway: '10.0.0.1'\n", b""),
    ];
    let (result, invocations) = drive(&steps, &outputs);
    assert_eq!(invocations.len(), 3);
    // the first invocation carries no session argument
    assert_eq!(invocations[0][1], b"--no-close".to_vec());
    // steps 2 and 3 each carry the most recently observed id
    assert_eq!(invocations[1][1], b"--no-open=5".to_vec());
    assert_eq!(invocations[2][1], b"--no-open=9".to_vec());
    let conf = finish_run(result.unwrap()).unwrap();
    assert_eq!(conf.ipv4.gw, Ipv4Address { a: 10, b: 0, c: 0, d: 1 });
    assert_eq!(conf.ipv4.ip[0].mask, 24);
}

#[test]
fn terminal_state_skips_remaining_steps() {
    // the configuration arrives at step 2 of 4; steps 3 and 4 are
    // never invoked and the accumulator passes through unchanged
    let steps: [&[u8]; 4] = [b"--one", b"--two", b"--three", b"--four"];
    let outputs: [(bool, &[u8], &[u8]); 4] = [
        (true, b"TRID: '2'\n", b""),
        (true, b"IP [0]: '10.0.0.2/24'\nGateway: '10.0.0.1'\n", b""),
        (true, b"", b""),
        (true, b"", b""),
    ];
    let (result, invocations) = drive(&steps, &outputs);
    assert_eq!(invocations.len(), 2);
    assert!(finish_run(result.unwrap()).is_ok());
}

#[test]
fn failed_invocation_aborts_the_run() {
    // if any step reports failure status the run fails immediately
    // and no subsequent step is invoked
    let steps: [&[u8]; 3] = [b"--one", b"--two", b"--three"];
    let outputs: [(bool, &[u8], &[u8]); 3] = [
        (true, b"TRID: '2'\n", b""),
        (false, b"", b"device vanished"),
        (true, b"IP [0]: '10.0.0.2/24'\nGateway: '10.0.0.1'\n", b""),
    ];
    let (result, invocations) = drive(&steps, &outputs);
    assert_eq!(invocations.len(), 2);
    match result {
        Err(ConfigError::InvocationError(text)) => {
            assert_eq!(text, b"device vanished".to_vec());
        }
        other => panic!("expected an invocation error, got {:?}", other),
    }
}

#[test]
fn unusable_output_aborts_the_run() {
    // a step whose output holds neither a configuration nor a
    // transaction id is unrecoverable
    let steps: [&[u8]; 2] = [b"--one", b"--two"];
    let outputs: [(bool, &[u8], &[u8]); 2] = [
        (true, b"nothing of interest\n", b""),
        (true, b"TRID: '2'\n", b""),
    ];
    let (result, invocations) = drive(&steps, &outputs);
    assert_eq!(invocations.len(), 1);
    assert!(matches!(result, Err(ConfigError::TransactionIdNotFound)));
}

#[test]
fn exhausted_steps_without_configuration_fail() {
    let steps: [&[u8]; 2] = [b"--one", b"--two"];
    let outputs: [(bool, &[u8], &[u8]); 2] = [
        (true, b"TRID: '2'\n", b""),
        (true, b"TRID: '3'\n", b""),
    ];
    let (result, _) = drive(&steps, &outputs);
    let r = finish_run(result.unwrap());
    assert!(matches!(r, Err(ConfigError::ConfigurationNotFound)));
}
