use boop::device_thread::{
    check_status, finish_default, request_default, DeviceState, DeviceWorker, Message, RawQuery,
    Reply, E_NOTFOUND, E_OUTOFMEMORY,
};
use boop::render::{
    check_stream_status, DeviceFormat, RenderAction, RenderLoop, AUDCLNT_E_DEVICE_INVALIDATED,
};
use boop::session::{Api, DeviceType, SampleType, Session};
use boop::{Error, Player, ThreadResult};

fn state(default_in: Option<u64>, default_out: Option<u64>) -> DeviceState {
    DeviceState { default_in, default_out, devices: vec![1, 2, 3] }
}

fn worker(default_in: Option<u64>, default_out: Option<u64>) -> DeviceWorker {
    DeviceWorker::start(0, true, Ok(state(default_in, default_out))).unwrap()
}

#[test]
fn status_mapping() {
    assert_eq!(check_status(0, false), Ok(()));
    assert_eq!(check_status(1, false), Ok(()));
    assert_eq!(check_status(E_NOTFOUND, true), Ok(()));
    assert_eq!(check_status(E_NOTFOUND, false), Err(Error::Unknown));
    assert_eq!(check_status(E_OUTOFMEMORY, true), Err(Error::SystemResources));
    assert_eq!(check_status(-1, true), Err(Error::Unknown));
}

#[test]
fn query_reads_statuses_in_order() {
    let raw = RawQuery {
        in_status: E_NOTFOUND,
        default_in: Some(9),
        out_status: 0,
        default_out: Some(4),
        enum_status: 0,
        devices: vec![4, 5],
    };
    let s = DeviceState::query(raw).unwrap();
    assert_eq!(s.default_in, None);
    assert_eq!(s.default_out, Some(4));
    assert_eq!(s.devices, vec![4, 5]);

    let failing = RawQuery {
        in_status: 0,
        default_in: Some(1),
        out_status: E_OUTOFMEMORY,
        default_out: None,
        enum_status: -5,
        devices: vec![],
    };
    assert_eq!(DeviceState::query(failing).err(), Some(Error::SystemResources));

    let no_collection = RawQuery {
        in_status: 0,
        default_in: Some(1),
        out_status: 0,
        default_out: Some(2),
        enum_status: E_NOTFOUND,
        devices: vec![],
    };
    assert_eq!(DeviceState::query(no_collection).err(), Some(Error::Unknown));
}

#[test]
fn worker_start_up_failures() {
    assert_eq!(DeviceWorker::start(-1, true, Ok(state(None, None))).err(), Some(Error::SystemResources));
    assert_eq!(DeviceWorker::start(0, false, Ok(state(None, None))).err(), Some(Error::SystemResources));
    assert_eq!(DeviceWorker::start(0, true, Err(Error::Unknown)).err(), Some(Error::Unknown));
}

#[test]
fn default_request_refreshes_first() {
    let mut w = worker(Some(1), None);
    let batch = request_default(DeviceType::Output);
    assert_eq!(batch, vec![Message::Refresh, Message::GetDefault(DeviceType::Output)]);
    assert_eq!(DeviceWorker::refreshes_needed(&batch), 1);
    let (replies, killed) = w.handle_batch(&batch, vec![Ok(state(Some(1), Some(7)))]);
    assert!(!killed);
    assert_eq!(replies, vec![Reply::Refreshed(Ok(())), Reply::Default(Ok(7))]);
    assert_eq!(finish_default(Ok(()), Ok(7)), Ok(7));
}

#[test]
fn two_default_requests_in_one_batch() {
    let mut w = worker(None, None);
    let mut batch = request_default(DeviceType::Input);
    batch.extend(request_default(DeviceType::Output));
    assert_eq!(DeviceWorker::refreshes_needed(&batch), 2);
    let (replies, killed) =
        w.handle_batch(&batch, vec![Ok(state(Some(3), None)), Ok(state(Some(3), Some(8)))]);
    assert!(!killed);
    assert_eq!(
        replies,
        vec![
            Reply::Refreshed(Ok(())),
            Reply::Default(Ok(3)),
            Reply::Refreshed(Ok(())),
            Reply::Default(Ok(8)),
        ]
    );
}

#[test]
fn failed_refresh_keeps_cached_state() {
    let mut w = worker(Some(2), None);
    let batch = vec![
        Message::Refresh,
        Message::GetDefault(DeviceType::Input),
        Message::GetDefault(DeviceType::Output),
    ];
    let (replies, _) = w.handle_batch(&batch, vec![Err(Error::SystemResources)]);
    assert_eq!(
        replies,
        vec![
            Reply::Refreshed(Err(Error::SystemResources)),
            Reply::Default(Ok(2)),
            Reply::Default(Err(Error::NoDeviceAvailable)),
        ]
    );
    assert_eq!(finish_default(Err(Error::SystemResources), Ok(2)), Err(Error::SystemResources));
    assert_eq!(w.default_endpoint(DeviceType::Input), Ok(2));
}

#[test]
fn kill_ends_the_batch() {
    let mut w = worker(Some(1), Some(2));
    let batch = vec![
        Message::GetDefault(DeviceType::Output),
        Message::Kill,
        Message::Refresh,
        Message::GetDefault(DeviceType::Input),
    ];
    assert_eq!(DeviceWorker::refreshes_needed(&batch), 0);
    let (replies, killed) = w.handle_batch(&batch, vec![]);
    assert!(killed);
    assert_eq!(replies, vec![Reply::Default(Ok(2))]);
}

#[test]
fn thread_result_hands_over_one_value() {
    let cell: ThreadResult<u32> = ThreadResult::new();
    cell.send(Ok(5));
    assert_eq!(cell.wait(), Ok(5));
    let failing: ThreadResult<()> = ThreadResult::new();
    failing.send(Err(Error::NoDeviceAvailable));
    assert_eq!(failing.wait(), Err(Error::NoDeviceAvailable));
}

#[test]
fn stream_status_mapping() {
    assert_eq!(check_stream_status(0), Ok(()));
    assert_eq!(check_stream_status(AUDCLNT_E_DEVICE_INVALIDATED), Err(Error::DeviceNotAvailable));
    assert_eq!(check_stream_status(-7), Err(Error::Unknown));
}

#[test]
fn format_negotiation() {
    assert_eq!(
        DeviceFormat::negotiate(2, 48000, 1, 16, 0),
        Ok(DeviceFormat { channels: 2, sample_rate: 48000, sample_type: SampleType::I16 })
    );
    assert_eq!(
        DeviceFormat::negotiate(2, 44100, 65534, 32, 3),
        Ok(DeviceFormat { channels: 2, sample_rate: 44100, sample_type: SampleType::F32 })
    );
    assert_eq!(DeviceFormat::negotiate(2, 48000, 1, 24, 0), Err(Error::DeviceNotUsable));
    assert_eq!(DeviceFormat::negotiate(0, 48000, 1, 16, 0), Err(Error::DeviceNotUsable));
    assert_eq!(DeviceFormat::negotiate(2, 0, 3, 32, 0), Err(Error::DeviceNotUsable));
}

#[test]
fn render_loop_streams_then_drains() {
    let mut r = RenderLoop::new(4);
    r.record_fill(4, 4);
    assert!(!r.finished());
    assert_eq!(r.on_wake(0), RenderAction::Wait);
    assert_eq!(r.on_wake(2), RenderAction::Fill(2));
    r.record_fill(2, 1);
    assert!(!r.finished());
    assert_eq!(r.on_wake(0), RenderAction::Wait);
    assert_eq!(r.on_wake(2), RenderAction::Silence(2));
    assert!(!r.finished());
    assert_eq!(r.on_wake(3), RenderAction::Silence(3));
    assert!(r.finished());
    assert_eq!(r.on_wake(1), RenderAction::Stop);
}

#[test]
fn render_loop_source_empty_at_prime() {
    let mut r = RenderLoop::new(3);
    r.record_fill(3, 0);
    assert!(r.finished());
    assert_eq!(r.on_wake(3), RenderAction::Stop);
}

#[test]
fn wasapi_is_not_available_here() {
    assert_eq!(Session::new(Api::Wasapi).err(), Some(Error::ApiNotAvailable));
}

#[test]
fn dummy_end_to_end_playback() {
    let session = Session::new(Api::Dummy).unwrap();
    let device = session.default_device(DeviceType::Output).unwrap();
    assert_eq!(device.channel_count(), 2);
    assert_eq!(device.sample_rate(), 48000);
    assert_eq!(device.sample_type(), SampleType::I16);
    assert_eq!(device.endpoint_id(), None);
    let stream = session.open_output_stream(device).unwrap();
    let source = Player::new(2, 48000, vec![0i16; 100].into_boxed_slice());
    assert_eq!(stream.play(source), Ok(()));
    assert!(session.default_output_device().is_ok());
    assert!(session.default_device(DeviceType::Input).is_ok());
}
