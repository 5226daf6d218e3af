use commcomm::arduino::upload::{
    avrdude_arguments, avrdude_message, contains_port, decimal, least_new_port, upload_result,
    Board, Upload, UploadAction, UploadEvent,
};
use commcomm::arduino::Port;
use commcomm::error::Error;

fn board(touch: bool, wait: bool) -> Board {
    Board {
        protocol: "avr109".to_string(),
        speed: 57600,
        mcu: "atmega32u4".to_string(),
        use_1200bps_touch: touch,
        wait_for_upload_port: wait,
    }
}

fn ports(names: &[&str]) -> Vec<Port> {
    names.iter().map(|name| Port::new(name)).collect()
}

/// Takes an upload to the point where it looks for the bootloader's port,
/// with COM1 and COM3 attached before the reset.
fn upload_waiting_for_bootloader() -> Upload {
    let mut upload = Upload::new(&board(true, true), &Port::new("COM3"));
    assert_eq!(upload.pending(), UploadAction::Enumerate);
    assert_eq!(
        upload.step(UploadEvent::Ports(ports(&["COM1", "COM3"]))),
        UploadAction::Touch(Port::new("COM3"))
    );
    assert_eq!(upload.step(UploadEvent::Touched), UploadAction::ReadClock);
    upload
}

#[test]
fn new_port_within_the_window_is_the_bootloader() {
    let mut upload = upload_waiting_for_bootloader();
    // The clock starts at an arbitrary time; a look every 100 ms.
    let mut now = 50_000;
    while now < 53_000 {
        assert_eq!(upload.step(UploadEvent::Clock(now)), UploadAction::Enumerate);
        // The device has left its port, and nothing new is there yet.
        assert_eq!(upload.step(UploadEvent::Ports(ports(&["COM1"]))), UploadAction::Sleep(100));
        assert_eq!(upload.step(UploadEvent::Slept), UploadAction::ReadClock);
        now += 100;
    }
    assert_eq!(upload.step(UploadEvent::Clock(53_000)), UploadAction::Enumerate);
    assert_eq!(
        upload.step(UploadEvent::Ports(ports(&["COM1", "COM4"]))),
        UploadAction::Flash(Port::new("COM4"))
    );
}

#[test]
fn without_a_new_port_the_port_of_the_device_is_flashed() {
    let mut upload = upload_waiting_for_bootloader();
    let mut now = 0;
    while now < 10_000 {
        assert_eq!(upload.step(UploadEvent::Clock(now)), UploadAction::Enumerate);
        assert_eq!(
            upload.step(UploadEvent::Ports(ports(&["COM1", "COM3"]))),
            UploadAction::Sleep(100)
        );
        assert_eq!(upload.step(UploadEvent::Slept), UploadAction::ReadClock);
        now += 100;
    }
    assert_eq!(upload.step(UploadEvent::Clock(10_000)), UploadAction::Flash(Port::new("COM3")));
}

#[test]
fn window_is_measured_from_the_first_look() {
    let mut upload = upload_waiting_for_bootloader();
    assert_eq!(upload.step(UploadEvent::Clock(7_000)), UploadAction::Enumerate);
    assert_eq!(upload.step(UploadEvent::Ports(ports(&["COM1"]))), UploadAction::Sleep(100));
    assert_eq!(upload.step(UploadEvent::Slept), UploadAction::ReadClock);
    assert_eq!(upload.step(UploadEvent::Clock(16_999)), UploadAction::Enumerate);
    assert_eq!(upload.step(UploadEvent::Ports(ports(&["COM1"]))), UploadAction::Sleep(100));
    assert_eq!(upload.step(UploadEvent::Slept), UploadAction::ReadClock);
    assert_eq!(upload.step(UploadEvent::Clock(17_000)), UploadAction::Flash(Port::new("COM3")));
}

#[test]
fn port_that_was_there_before_the_reset_is_not_new() {
    let mut upload = upload_waiting_for_bootloader();
    upload.step(UploadEvent::Clock(0));
    // COM3 left and came back: it was attached before the reset.
    assert_eq!(upload.step(UploadEvent::Ports(ports(&["COM3", "COM1"]))), UploadAction::Sleep(100));
    upload.step(UploadEvent::Slept);
    upload.step(UploadEvent::Clock(100));
    // Of two new ports the one whose name comes first is taken, wherever
    // it stands in the list.
    assert_eq!(
        upload.step(UploadEvent::Ports(ports(&["COM1", "COM7", "COM3", "COM5"]))),
        UploadAction::Flash(Port::new("COM5"))
    );
}

fn upload_flashing_bootloader() -> Upload {
    let mut upload = upload_waiting_for_bootloader();
    upload.step(UploadEvent::Clock(0));
    assert_eq!(
        upload.step(UploadEvent::Ports(ports(&["COM1", "COM4"]))),
        UploadAction::Flash(Port::new("COM4"))
    );
    upload
}

#[test]
fn device_answers_on_its_own_port_when_that_comes_back() {
    let mut upload = upload_flashing_bootloader();
    assert_eq!(upload.step(UploadEvent::Flashed(Some(Some(0)))), UploadAction::ReadClock);
    assert_eq!(upload.step(UploadEvent::Clock(20_000)), UploadAction::Enumerate);
    assert_eq!(upload.step(UploadEvent::Ports(ports(&["COM1", "COM4"]))), UploadAction::Sleep(100));
    assert_eq!(upload.step(UploadEvent::Slept), UploadAction::ReadClock);
    assert_eq!(upload.step(UploadEvent::Clock(20_100)), UploadAction::Enumerate);
    assert_eq!(upload.step(UploadEvent::Ports(ports(&["COM1", "COM3"]))), UploadAction::Done);
    assert_eq!(upload.finish(), Some(Ok(Port::new("COM3"))));
}

#[test]
fn device_answers_on_the_bootloader_port_when_its_own_stays_away() {
    let mut upload = upload_flashing_bootloader();
    assert_eq!(upload.step(UploadEvent::Flashed(Some(Some(0)))), UploadAction::ReadClock);
    assert_eq!(upload.step(UploadEvent::Clock(20_000)), UploadAction::Enumerate);
    assert_eq!(upload.step(UploadEvent::Ports(ports(&["COM1", "COM4"]))), UploadAction::Sleep(100));
    assert_eq!(upload.step(UploadEvent::Slept), UploadAction::ReadClock);
    assert_eq!(upload.step(UploadEvent::Clock(21_999)), UploadAction::Enumerate);
    assert_eq!(upload.step(UploadEvent::Ports(ports(&["COM1", "COM4"]))), UploadAction::Sleep(100));
    assert_eq!(upload.step(UploadEvent::Slept), UploadAction::ReadClock);
    assert_eq!(upload.step(UploadEvent::Clock(22_000)), UploadAction::Done);
    assert_eq!(upload.finish(), Some(Ok(Port::new("COM4"))));
}

#[test]
fn failed_flashing_ends_the_upload() {
    let mut upload = upload_flashing_bootloader();
    assert_eq!(upload.step(UploadEvent::Flashed(Some(Some(1)))), UploadAction::Done);
    assert_eq!(upload.finish(), Some(Err(Error::UploadFailed(Some(1)))));
    let mut upload = upload_flashing_bootloader();
    assert_eq!(upload.step(UploadEvent::Flashed(Some(None))), UploadAction::Done);
    assert_eq!(upload.finish(), Some(Err(Error::UploadFailed(None))));
}

#[test]
fn flashing_that_does_not_end_times_out() {
    let mut upload = upload_flashing_bootloader();
    assert_eq!(upload.step(UploadEvent::Flashed(None)), UploadAction::Done);
    assert_eq!(upload.finish(), Some(Err(Error::UploadTimeout)));
}

#[test]
fn failed_action_ends_the_upload() {
    let mut upload = Upload::new(&board(true, true), &Port::new("COM3"));
    let failure = Error::Io("Could not enumerate serial ports".to_string());
    assert_eq!(upload.step(UploadEvent::Failed(failure)), UploadAction::Done);
    // Nothing changes it any more.
    assert_eq!(upload.step(UploadEvent::Touched), UploadAction::Done);
    assert_eq!(upload.step(UploadEvent::Failed(Error::UploadTimeout)), UploadAction::Done);
    assert_eq!(
        upload.finish(),
        Some(Err(Error::Io("Could not enumerate serial ports".to_string())))
    );
}

#[test]
fn board_without_a_touch_is_flashed_at_once() {
    let mut upload = Upload::new(&board(false, false), &Port::new("COM3"));
    assert_eq!(upload.pending(), UploadAction::Flash(Port::new("COM3")));
    assert_eq!(upload.step(UploadEvent::Flashed(Some(Some(0)))), UploadAction::Done);
    assert_eq!(upload.finish(), Some(Ok(Port::new("COM3"))));
}

#[test]
fn board_without_a_bootloader_port_is_flashed_after_the_touch() {
    let mut upload = Upload::new(&board(true, false), &Port::new("COM3"));
    assert_eq!(upload.step(UploadEvent::Ports(ports(&["COM3"]))), UploadAction::Touch(Port::new("COM3")));
    assert_eq!(upload.step(UploadEvent::Touched), UploadAction::Flash(Port::new("COM3")));
    assert_eq!(upload.step(UploadEvent::Flashed(Some(Some(0)))), UploadAction::Done);
    assert_eq!(upload.finish(), Some(Ok(Port::new("COM3"))));
}

#[test]
fn event_that_was_not_asked_for_changes_nothing() {
    let mut upload = Upload::new(&board(true, true), &Port::new("COM3"));
    assert_eq!(upload.step(UploadEvent::Touched), UploadAction::Enumerate);
    assert_eq!(upload.step(UploadEvent::Clock(4)), UploadAction::Enumerate);
    assert_eq!(upload.step(UploadEvent::Flashed(Some(Some(0)))), UploadAction::Enumerate);
    assert_eq!(upload.step(UploadEvent::Slept), UploadAction::Enumerate);
    assert_eq!(upload.finish(), None);
}

#[test]
fn ports_are_found_by_name() {
    let attached = ports(&["COM1", "COM3"]);
    assert!(contains_port(&attached, &Port::new("COM3")));
    assert!(!contains_port(&attached, &Port::new("COM4")));
    assert!(!contains_port(&[].to_vec(), &Port::new("COM4")));
    assert_eq!(least_new_port(&attached, &ports(&["COM3", "COM1"])), None);
    assert_eq!(least_new_port(&attached, &ports(&["COM3", "COM2", "COM0"])), Some(Port::new("COM0")));
    assert_eq!(least_new_port(&attached, &ports(&["COM1", "COM3", "COM2"])), Some(Port::new("COM2")));
    assert_eq!(least_new_port(&attached, &ports(&["COM2", "COM3", "COM1"])), Some(Port::new("COM2")));
    assert_eq!(least_new_port(&attached, &ports(&["COM20", "COM2", "COM"])), Some(Port::new("COM")));
    assert_eq!(least_new_port(&attached, &ports(&["COM9", "COM10"])), Some(Port::new("COM10")));
    assert_eq!(least_new_port(&ports(&[]), &ports(&["COM9"])), Some(Port::new("COM9")));
    assert_eq!(least_new_port(&ports(&[]), &ports(&["b", "a", "a"])), Some(Port::new("a")));
    assert_eq!(least_new_port(&attached, &ports(&[])), None);
}

#[test]
fn flashing_utility_gets_its_arguments() {
    let args = avrdude_arguments(
        &board(true, true),
        "/tmp/x/avrdude.conf",
        &Port::new("/dev/ttyACM0"),
        "/tmp/x/program.hex",
    );
    assert_eq!(
        args,
        vec![
            "-v",
            "-v",
            "-C",
            "/tmp/x/avrdude.conf",
            "-p",
            "atmega32u4",
            "-c",
            "avr109",
            "-P",
            "/dev/ttyACM0",
            "-b",
            "57600",
            "-D",
            "-Uflash:w:/tmp/x/program.hex:i"
        ]
    );
}

#[test]
fn numbers_are_written_in_decimal() {
    assert_eq!(decimal(0), "0");
    assert_eq!(decimal(7), "7");
    assert_eq!(decimal(10), "10");
    assert_eq!(decimal(115200), "115200");
    assert_eq!(decimal(1000000007), "1000000007");
    assert_eq!(decimal(usize::MAX), usize::MAX.to_string());
}

#[test]
fn messages_of_the_flashing_utility_lose_its_name() {
    assert_eq!(avrdude_message("avrdude: AVR device initialized"), Some("AVR device initialized".to_string()));
    assert_eq!(avrdude_message("avrdude: "), Some(String::new()));
    assert_eq!(avrdude_message("avrdude:"), None);
    assert_eq!(avrdude_message("Writing | ####"), None);
    assert_eq!(avrdude_message(""), None);
}

#[test]
fn only_exit_code_zero_is_success() {
    assert_eq!(upload_result(Some(Some(0))), Ok(()));
    assert_eq!(upload_result(Some(Some(1))), Err(Error::UploadFailed(Some(1))));
    assert_eq!(upload_result(Some(Some(-1))), Err(Error::UploadFailed(Some(-1))));
    assert_eq!(upload_result(Some(None)), Err(Error::UploadFailed(None)));
    assert_eq!(upload_result(None), Err(Error::UploadTimeout));
}

#[test]
fn bootloader_port_is_the_least_new_port_by_name() {
    let mut upload = Upload::new(&board(true, true), &Port::new("COM1"));
    assert_eq!(
        upload.step(UploadEvent::Ports(ports(&["COM1"]))),
        UploadAction::Touch(Port::new("COM1"))
    );
    assert_eq!(upload.step(UploadEvent::Touched), UploadAction::ReadClock);
    assert_eq!(upload.step(UploadEvent::Clock(0)), UploadAction::Enumerate);
    assert_eq!(
        upload.step(UploadEvent::Ports(ports(&["COM1", "COM3", "COM2"]))),
        UploadAction::Flash(Port::new("COM2"))
    );
}

#[test]
fn ports_are_ordered_by_name() {
    let names = ["", "COM", "COM1", "COM10", "COM2", "COM3", "a", "b", "\u{e9}", "/dev/ttyACM0"];
    for a in names {
        for b in names {
            let (first, second) = (Port::new(a), Port::new(b));
            assert_eq!(first.precedes(&second), a < b, "{} {}", a, b);
            // The order that is used for the choice is the order of ports.
            assert_eq!(first.precedes(&second), first < second, "{} {}", a, b);
        }
    }
}
