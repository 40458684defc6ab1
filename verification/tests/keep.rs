use std::io::{self, Read, Write};

use cvd::keep::{listener_step, notification_message, ListenerStep, ReadOutcome};

struct BrokenStderr;

impl Write for BrokenStderr {
    fn write(&mut self, _: &[u8]) -> io::Result<usize> {
        Err(io::ErrorKind::BrokenPipe.into())
    }

    fn flush(&mut self) -> io::Result<()> {
        Err(io::ErrorKind::BrokenPipe.into())
    }
}

#[test]
fn stderr_failure_does_not_stop_draining_notifications() {
    // Span several reads, so stopping at the first write failure would
    // leave unread notifications.
    let mut input = io::Cursor::new([1u8; 200]);
    let mut output = BrokenStderr;
    let mut buffer = [0u8; 64];
    let mut printed = 0;
    loop {
        let outcome = match input.read(&mut buffer) {
            Ok(0) => ReadOutcome::Closed,
            Ok(count) => ReadOutcome::Data(buffer[..count].to_vec()),
            Err(error) if error.kind() == io::ErrorKind::Interrupted => ReadOutcome::Interrupted,
            Err(_) => ReadOutcome::Failed,
        };
        match listener_step(&outcome) {
            ListenerStep::Print(messages) => {
                for message in messages {
                    printed += 1;
                    let _ = output.write_all(message.as_bytes());
                    let _ = output.flush();
                }
            }
            ListenerStep::Retry => continue,
            ListenerStep::Stop => break,
        }
    }
    assert_eq!(input.position(), 200);
    assert_eq!(printed, 200);
}

#[test]
fn notification_bytes_name_the_signal() {
    assert_eq!(notification_message(1), "\n\nCVD: keep mode enabled (SIGUSR1)\n");
    assert_eq!(notification_message(2), "\n\nCVD: keep mode disabled (SIGUSR2)\n");
    assert!(matches!(listener_step(&ReadOutcome::Interrupted), ListenerStep::Retry));
    assert!(matches!(listener_step(&ReadOutcome::Failed), ListenerStep::Stop));
}
