use std::sync::{Arc, Mutex};

use iosmic::sink::{
    duration_micros, is_missing_pulse_plugin, negotiated_parameters, timeout_millis,
    validate_parameters, AlsaSinkFactory, AudioSink, Availability, SinkErrnos, SinkError,
    SinkParameters, WaitResult, WriteResult,
};
use iosmic::time::Duration;

/// A device that counts its calls and keeps what it was given; each write takes three frames.
struct FakeSink {
    parameters: SinkParameters,
    calls: Arc<Mutex<Calls>>,
}

#[derive(Debug, Default, PartialEq)]
struct Calls {
    writes: Vec<Vec<i32>>,
    prepares: usize,
    drops_and_prepares: usize,
    drops: usize,
}

impl AudioSink for FakeSink {
    fn parameters(&self) -> SinkParameters {
        self.parameters
    }
    fn wait_ready(&self, _timeout: Duration) -> Result<WaitResult, SinkError> {
        Ok(WaitResult::TimedOut)
    }
    fn available_frames(&self) -> Result<Availability, SinkError> {
        Ok(Availability::Frames(self.parameters.period_frames))
    }
    fn write(&mut self, samples: &[i32]) -> Result<WriteResult, SinkError> {
        self.calls.lock().unwrap().writes.push(samples.to_vec());
        Ok(WriteResult::Written(3))
    }
    fn prepare(&mut self) -> Result<(), SinkError> {
        self.calls.lock().unwrap().prepares += 1;
        Err(SinkError::Errno(libc::ENODEV))
    }
    fn drop_and_prepare(&mut self) -> Result<(), SinkError> {
        self.calls.lock().unwrap().drops_and_prepares += 1;
        Ok(())
    }
    fn drop_queue(&mut self) -> Result<(), SinkError> {
        self.calls.lock().unwrap().drops += 1;
        Ok(())
    }
    fn delay_frames(&self) -> Result<i64, SinkError> {
        Ok(77)
    }
}

fn fake_sink() -> (Box<dyn AudioSink>, SinkParameters, Arc<Mutex<Calls>>) {
    let parameters = SinkParameters { rate: 48_000, period_frames: 480, buffer_frames: 1920 };
    let calls = Arc::new(Mutex::new(Calls::default()));
    (Box::new(FakeSink { parameters, calls: Arc::clone(&calls) }), parameters, calls)
}

/// Calls through the box's own impl, not through the device in it.
fn boxed_write<S: AudioSink>(sink: &mut S, samples: &[i32]) -> Result<WriteResult, SinkError> {
    sink.write(samples)
}

#[test]
fn mock_sink_blanket_impl_delegates() {
    let (mut boxed, parameters, calls) = fake_sink();
    assert_eq!(boxed.parameters(), parameters);
    assert_eq!(boxed_write(&mut boxed, &[1, 2, 3]).unwrap(), WriteResult::Written(3));
    assert_eq!(calls.lock().unwrap().writes, vec![vec![1, 2, 3]]);
}

fn every_call<S: AudioSink>(sink: &mut S) {
    assert_eq!(sink.parameters().period_frames, 480);
    assert_eq!(sink.wait_ready(Duration::zero()), Ok(WaitResult::TimedOut));
    assert_eq!(sink.available_frames(), Ok(Availability::Frames(480)));
    assert_eq!(sink.write(&[4]), Ok(WriteResult::Written(3)));
    assert_eq!(sink.prepare(), Err(SinkError::Errno(libc::ENODEV)));
    assert_eq!(sink.drop_and_prepare(), Ok(()));
    assert_eq!(sink.drop_queue(), Ok(()));
    assert_eq!(sink.delay_frames(), Ok(77));
}

#[test]
fn a_boxed_sink_hands_each_call_on_once() {
    let (mut boxed, _parameters, calls) = fake_sink();
    every_call(&mut boxed);
    assert_eq!(
        *calls.lock().unwrap(),
        Calls { writes: vec![vec![4]], prepares: 1, drops_and_prepares: 1, drops: 1 }
    );
}

#[test]
fn validates_negotiated_period_and_buffer() {
    let requested_period = Duration::from_millis(10);
    let requested_buffer = Duration::from_millis(40);
    assert!(validate_parameters(
        SinkParameters { rate: 48_000, period_frames: 480, buffer_frames: 1920 },
        requested_period,
        requested_buffer,
    )
    .is_ok());

    let error = validate_parameters(
        SinkParameters { rate: 48_000, period_frames: 320, buffer_frames: 960 },
        requested_period,
        requested_buffer,
    )
    .unwrap_err();
    assert!(error.message().contains("period mismatch"));
}

#[test]
fn recognizes_a_missing_pulse_plugin() {
    assert!(is_missing_pulse_plugin("pulse", libc::ENOENT));
    assert!(!is_missing_pulse_plugin("default", libc::ENOENT));
    assert!(!is_missing_pulse_plugin("pulse", libc::EPIPE));
}

#[test]
fn unusable_parameters_are_refused_in_words() {
    let period = Duration::from_millis(10);
    let buffer = Duration::from_millis(40);
    let verdict = |rate, period_frames, buffer_frames| {
        validate_parameters(SinkParameters { rate, period_frames, buffer_frames }, period, buffer)
    };
    assert_eq!(
        verdict(0, 480, 1920).unwrap_err().message(),
        "ALSA negotiated invalid parameters: SinkParameters { rate: 0, period_frames: 480, buffer_frames: 1920 }"
    );
    assert!(verdict(48_000, 0, 1920).is_err());
    assert!(verdict(48_000, 480, 0).is_err());
    // A tenth of the period, and one period more of the buffer, are still admitted.
    assert!(verdict(48_000, 432, 1920).is_ok());
    assert!(verdict(48_000, 528, 1920).is_ok());
    assert!(verdict(48_000, 480, 2400).is_ok());
    assert_eq!(
        verdict(48_000, 529, 1920).unwrap_err().message(),
        "ALSA period mismatch: requested 10.000 ms, actual 11.021 ms"
    );
    assert_eq!(
        verdict(48_000, 480, 2401).unwrap_err().message(),
        "ALSA buffer mismatch: requested 40.000 ms, actual 50.021 ms (limit 50.000 ms)"
    );
}

#[test]
fn parameters_last_as_long_as_their_frames() {
    let parameters = SinkParameters { rate: 44_100, period_frames: 441, buffer_frames: 1 };
    assert_eq!(parameters.period(), Duration::from_millis(10));
    assert_eq!(parameters.buffer(), Duration::from_nanos(22_676));
}

#[test]
fn lengths_are_ratios_of_double_precision() {
    // The ratio lies a little above half a nanosecond.
    let parameters = SinkParameters { rate: 5120, period_frames: 1, buffer_frames: 3 };
    assert_eq!(parameters.period(), Duration::from_nanos(195_313));
    assert_eq!(
        parameters.buffer().as_nanos(),
        std::time::Duration::from_secs_f64(3.0 / 5120.0).as_nanos()
    );
}

#[test]
fn a_tenth_of_a_period_is_one_in_double_precision() {
    let buffer = Duration::from_secs(60);
    let mut edges = 0;
    for millis in 1..=400u64 {
        let requested = std::time::Duration::from_millis(millis);
        for frames in [millis * 9, millis * 9 - 1, millis * 11, millis * 11 + 1] {
            let actual = std::time::Duration::from_secs_f64(frames as f64 / 10_000.0);
            let error = actual.abs_diff(requested);
            let off = error.as_secs_f64() > requested.as_secs_f64() * 0.10;
            edges += (off != (error.as_nanos() * 10 > requested.as_nanos())) as usize;
            let parameters = SinkParameters {
                rate: 10_000,
                period_frames: frames as usize,
                buffer_frames: 1,
            };
            let verdict = validate_parameters(parameters, Duration::from_millis(millis), buffer);
            assert_eq!(verdict.is_err(), off, "{frames} frames for {millis} ms");
        }
    }
    assert!(edges > 0);
}

#[test]
fn device_counts_become_frames() {
    assert_eq!(
        negotiated_parameters(48_000, 480, 1920),
        Ok(SinkParameters { rate: 48_000, period_frames: 480, buffer_frames: 1920 })
    );
    assert_eq!(negotiated_parameters(48_000, -1, -1), Err(SinkError::PeriodSize));
    assert_eq!(negotiated_parameters(48_000, 480, -1), Err(SinkError::BufferSize));
}

#[test]
fn device_errors_are_told_apart() {
    let errnos = SinkErrnos::of_platform();
    assert_eq!(errnos.again, libc::EAGAIN);
    assert_eq!(errnos.pipe, libc::EPIPE);
    assert_eq!(errnos.suspended, libc::ESTRPIPE);

    assert_eq!(errnos.wait_result(Ok(true)), Ok(WaitResult::Ready));
    assert_eq!(errnos.wait_result(Ok(false)), Ok(WaitResult::TimedOut));
    assert_eq!(errnos.wait_result(Err(libc::EPIPE)), Ok(WaitResult::Underrun));
    assert_eq!(errnos.wait_result(Err(libc::ESTRPIPE)), Ok(WaitResult::Suspended));
    assert_eq!(errnos.wait_result(Err(libc::EAGAIN)), Err(SinkError::Errno(libc::EAGAIN)));

    assert_eq!(errnos.availability(Ok(480)), Ok(Availability::Frames(480)));
    assert_eq!(errnos.availability(Ok(-1)), Err(SinkError::AvailableFrames));
    assert_eq!(errnos.availability(Err(libc::EPIPE)), Ok(Availability::Underrun));
    assert_eq!(errnos.availability(Err(libc::ESTRPIPE)), Ok(Availability::Suspended));
    assert_eq!(errnos.availability(Err(libc::ENODEV)), Err(SinkError::Errno(libc::ENODEV)));

    assert_eq!(errnos.write_result(Ok(7)), Ok(WriteResult::Written(7)));
    assert_eq!(errnos.write_result(Err(libc::EAGAIN)), Ok(WriteResult::WouldBlock));
    assert_eq!(errnos.write_result(Err(libc::EPIPE)), Ok(WriteResult::Underrun));
    assert_eq!(errnos.write_result(Err(libc::ESTRPIPE)), Ok(WriteResult::Suspended));
    assert_eq!(errnos.write_result(Err(libc::ENODEV)), Err(SinkError::Errno(libc::ENODEV)));
}

#[test]
fn spans_are_cut_to_what_the_device_takes() {
    assert_eq!(duration_micros(Duration::from_nanos(40_000_999)), 40_000);
    assert_eq!(duration_micros(Duration::from_secs(u64::MAX)), u32::MAX);
    assert_eq!(timeout_millis(Duration::from_nanos(1_999_999)), 1);
    assert_eq!(timeout_millis(Duration::from_secs(u64::MAX)), u32::MAX);
}

#[test]
fn a_factory_keeps_its_device() {
    assert_eq!(AlsaSinkFactory::new("hw:0,0".to_owned()).device(), "hw:0,0");
}
