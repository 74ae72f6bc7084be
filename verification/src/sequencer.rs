//! Decision logic of the sequential modem protocol. The run keeps a
//! single accumulator: either a pending transaction id (zero before
//! any step has yielded one) or, terminally, a full configuration.
//! For each step this module decides the invocation's argument list
//! and folds the captured outcome into the next accumulator value;
//! the caller performs the actual invocations, one at a time, and
//! stops on the first error.

use vstd::prelude::*;
use vstd::slice::slice_to_vec;
use crate::ConfigError;
use crate::bytes::views_of;
use crate::ip_configuration::{is_fold_of, IpConfiguration};
use crate::num::{dec_str, render_dec_u64};
use crate::parser::{first_trid_of, parse_ip_configuration, parse_trid, spec_entries};

verus! {

/// The accumulator of the protocol run.
#[derive(Clone, Debug)]
pub enum SequencerState {
    /// No configuration yet; the id of the session to continue, or
    /// zero when no step has yielded one.
    PendingTransaction(u64),
    /// Terminal: a full configuration was obtained, the remaining
    /// steps are skipped.
    Configuration(IpConfiguration),
}

/// The fixed argument `--no-close`.
pub open spec fn arg_no_close() -> Seq<u8> {
    seq![45u8, 45u8, 110u8, 111u8, 45u8, 99u8, 108u8, 111u8, 115u8, 101u8]
}

/// The argument prefix `--no-open=`, completed by the decimal
/// transaction id.
pub open spec fn arg_no_open_prefix() -> Seq<u8> {
    seq![45u8, 45u8, 110u8, 111u8, 45u8, 111u8, 112u8, 101u8, 110u8, 61u8]
}

/// The fixed argument `-d`, announcing the device path.
pub open spec fn arg_device_flag() -> Seq<u8> {
    seq![45u8, 100u8]
}

/// The argument list of one step: the step's base argument; then,
/// when a nonzero transaction id is pending, `--no-open=` with that
/// id in decimal, so the tool continues the same session; then
/// `--no-close` and the device announcement.
pub open spec fn spec_step_args(base: Seq<u8>, trid: u64, device: Seq<u8>) -> Seq<Seq<u8>> {
    if trid == 0 {
        seq![base, arg_no_close(), arg_device_flag(), device]
    } else {
        seq![
            base,
            arg_no_open_prefix() + dec_str(trid as nat),
            arg_no_close(),
            arg_device_flag(),
            device,
        ]
    }
}

fn no_close_bytes() -> (r: Vec<u8>)
    ensures
        r@ == arg_no_close(),
{
    let mut v: Vec<u8> = Vec::new();
    v.push(45);
    v.push(45);
    v.push(110);
    v.push(111);
    v.push(45);
    v.push(99);
    v.push(108);
    v.push(111);
    v.push(115);
    v.push(101);
    proof {
        assert(v@ =~= arg_no_close());
    }
    v
}

fn no_open_prefix_bytes() -> (r: Vec<u8>)
    ensures
        r@ == arg_no_open_prefix(),
{
    let mut v: Vec<u8> = Vec::new();
    v.push(45);
    v.push(45);
    v.push(110);
    v.push(111);
    v.push(45);
    v.push(111);
    v.push(112);
    v.push(101);
    v.push(110);
    v.push(61);
    proof {
        assert(v@ =~= arg_no_open_prefix());
    }
    v
}

fn device_flag_bytes() -> (r: Vec<u8>)
    ensures
        r@ == arg_device_flag(),
{
    let mut v: Vec<u8> = Vec::new();
    v.push(45);
    v.push(100);
    proof {
        assert(v@ =~= arg_device_flag());
    }
    v
}

/// Decides whether the step runs at all and, when it does, with
/// which arguments: a terminal accumulator skips every remaining
/// step; a pending one yields the step's full argument list.
pub fn step_invocation_args(state: &SequencerState, base: &[u8], device: &[u8]) -> (r: Option<
    Vec<Vec<u8>>,
>)
    ensures
        state is Configuration ==> r is None,
        state matches SequencerState::PendingTransaction(t) ==> (r matches Some(args)
            && views_of(args@) == spec_step_args(base@, *t, device@)),
{
    match state {
        SequencerState::Configuration(_) => None,
        SequencerState::PendingTransaction(t) => {
            let mut args: Vec<Vec<u8>> = Vec::new();
            args.push(slice_to_vec(base));
            if *t != 0 {
                let mut no_open = no_open_prefix_bytes();
                let mut digits = render_dec_u64(*t);
                no_open.append(&mut digits);
                args.push(no_open);
            }
            args.push(no_close_bytes());
            args.push(device_flag_bytes());
            args.push(slice_to_vec(device));
            proof {
                assert(views_of(args@) =~= spec_step_args(base@, *t, device@));
            }
            Some(args)
        },
    }
}

/// Folds one step's outcome into the accumulator. A terminal
/// accumulator passes through unchanged. A failed invocation fails
/// the run, carrying the tool's error text verbatim. On success the
/// captured output is first read as a full configuration — more
/// than one usable record — and terminates the sequence; failing
/// that, as a transaction id for the next step; failing both, the
/// run is unrecoverable and fails.
pub fn process_step_output(state: SequencerState, success: bool, stdout: &[u8], stderr: &[u8])
    -> (r: Result<SequencerState, ConfigError>)
    ensures
        state is Configuration ==> r == Ok::<SequencerState, ConfigError>(state),
        state is PendingTransaction && !success ==> (r matches Err(e) && e matches
            ConfigError::InvocationError(b) && b@ == stderr@),
        state is PendingTransaction && success && spec_entries(stdout@).len() > 1 ==> (r matches
            Ok(s) && s matches SequencerState::Configuration(c) && is_fold_of(
            c,
            spec_entries(stdout@),
        )),
        (state is PendingTransaction && success && spec_entries(stdout@).len() <= 1
            && first_trid_of(spec_entries(stdout@)) is Some) ==> r == Ok::<
            SequencerState,
            ConfigError,
        >(SequencerState::PendingTransaction(first_trid_of(spec_entries(stdout@))->Some_0)),
        state is PendingTransaction && success && spec_entries(stdout@).len() <= 1
            && first_trid_of(spec_entries(stdout@)) is None ==> (r matches Err(e)
            && e is TransactionIdNotFound),
{
    match state {
        SequencerState::Configuration(c) => Ok(SequencerState::Configuration(c)),
        SequencerState::PendingTransaction(_) => {
            if !success {
                return Err(ConfigError::InvocationError(slice_to_vec(stderr)));
            }
            match parse_ip_configuration(stdout) {
                Ok(c) => Ok(SequencerState::Configuration(c)),
                Err(_) => match parse_trid(stdout) {
                    Ok(t) => Ok(SequencerState::PendingTransaction(t)),
                    Err(e) => Err(e),
                },
            }
        },
    }
}

/// Whether the run as a whole has succeeded once the steps are
/// exhausted: only a terminal accumulator is success, and the
/// configuration it carries is the result.
pub fn finish_run(state: SequencerState) -> (r: Result<IpConfiguration, ConfigError>)
    ensures
        state matches SequencerState::Configuration(c) ==> r == Ok::<
            IpConfiguration,
            ConfigError,
        >(c),
        state is PendingTransaction ==> (r matches Err(e) && e is ConfigurationNotFound),
{
    match state {
        SequencerState::Configuration(c) => Ok(c),
        SequencerState::PendingTransaction(_) => Err(ConfigError::ConfigurationNotFound),
    }
}

} // verus!
