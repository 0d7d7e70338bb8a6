use sensor_api::database::connection_string;
use sensor_api::firmware::{
    after_firmware_build, after_firmware_open, parse_board_list, start_firmware_build, BuildOutcome,
    FirmwareAction,
};
use sensor_api::readings::{flowmeter_window, insert_reply, timestamp_reply, TIMEOUT};
use sensor_api::time::Timestamp;
use sensor_api::types::FirmwareRequest;

fn request(board: &str) -> FirmwareRequest {
    FirmwareRequest {
        board: board.to_string(),
        ssid: "farm-net".to_string(),
        password: "SECRET-REDACTED".to_string(),
        key: "sensor-17".to_string(),
    }
}

#[test]
fn board_list_is_split_on_commas_and_trimmed() {
    assert_eq!(parse_board_list(" esp32c6 , esp32s3,\tstm32 "), vec!["esp32c6", "esp32s3", "stm32"]);
    assert_eq!(parse_board_list("a,,b,"), vec!["a", "", "b", ""]);
    assert_eq!(parse_board_list(""), vec![""]);
    assert_eq!(parse_board_list("\u{3000}esp32c6\u{85}"), vec!["esp32c6"]);
    assert_eq!(parse_board_list("é , x y "), vec!["é", "x y"]);
}

#[test]
fn board_list_agrees_with_split_and_trim() {
    for list in ["esp32c6", " a , b ,c", ",,", "\n x\r\n,\u{a0}y\u{2009}", "  "] {
        let expected: Vec<&str> = list.split(',').map(str::trim).collect();
        assert_eq!(parse_board_list(list), expected, "{list:?}");
    }
}

#[test]
fn unsupported_board_is_refused_before_building() {
    match start_firmware_build("/srv/moisture", &request("esp32s3"), "esp32c6") {
        FirmwareAction::Respond { status, body } => {
            assert_eq!(status, 400);
            assert_eq!(body, "Unsupported board: esp32s3");
        }
        other => panic!("unexpected {other:?}"),
    }
}

#[test]
fn supported_board_is_built_with_the_request_settings() {
    match start_firmware_build("/srv/moisture", &request("esp32c6"), "esp32s3, esp32c6") {
        FirmwareAction::Build { project_dir, device_id, wifi_ssid, wifi_password } => {
            assert_eq!(project_dir, "/srv/moisture/esp32c6");
            assert_eq!(device_id, "sensor-17");
            assert_eq!(wifi_ssid, "farm-net");
            assert_eq!(wifi_password, "SECRET-REDACTED");
        }
        other => panic!("unexpected {other:?}"),
    }
}

#[test]
fn build_outcomes_lead_to_answers_or_the_image() {
    match after_firmware_build("/p/esp32c6", "esp32c6", BuildOutcome::Failed { stderr: "error[E0425]".to_string() }) {
        FirmwareAction::Respond { status, body } => {
            assert_eq!(status, 500);
            assert_eq!(body, "Build failed:\nerror[E0425]");
        }
        other => panic!("unexpected {other:?}"),
    }
    match after_firmware_build("/p", "esp32c6", BuildOutcome::NotStarted { error: "No such file".to_string() }) {
        FirmwareAction::Respond { status, body } => {
            assert_eq!(status, 500);
            assert_eq!(body, "Failed to run build command: No such file");
        }
        other => panic!("unexpected {other:?}"),
    }
    match after_firmware_build("/p/esp32c6", "esp32c6", BuildOutcome::Succeeded) {
        FirmwareAction::Open { path } => {
            assert_eq!(path, "/p/esp32c6/target/riscv32imc-unknown-none-elf/release/firmware")
        }
        other => panic!("unexpected {other:?}"),
    }
    match after_firmware_build("/p/esp32s3", "esp32s3", BuildOutcome::Succeeded) {
        FirmwareAction::Respond { status, body } => {
            assert_eq!(status, 400);
            assert_eq!(body, "Unsupported board: esp32s3");
        }
        other => panic!("unexpected {other:?}"),
    }
}

#[test]
fn opened_image_is_streamed_as_named_attachment() {
    match after_firmware_open("esp32c6", Ok(())) {
        FirmwareAction::Stream { content_disposition } => {
            assert_eq!(content_disposition, "attachment; filename=\"esp32c6.bin\"")
        }
        other => panic!("unexpected {other:?}"),
    }
    match after_firmware_open("bad\nname", Ok(())) {
        FirmwareAction::Stream { content_disposition } => assert_eq!(content_disposition, "attachment"),
        other => panic!("unexpected {other:?}"),
    }
    match after_firmware_open("carte-é", Ok(())) {
        FirmwareAction::Stream { content_disposition } => {
            assert_eq!(content_disposition, "attachment; filename=\"carte-é.bin\"")
        }
        other => panic!("unexpected {other:?}"),
    }
    match after_firmware_open("esp32c6", Err("not found".to_string())) {
        FirmwareAction::Respond { status, body } => {
            assert_eq!(status, 500);
            assert_eq!(body, "Firmware file not found: not found");
        }
        other => panic!("unexpected {other:?}"),
    }
}

#[test]
fn flowmeter_window_ends_before_arrival_and_lasts_the_reading() {
    let (start, stop) = flowmeter_window(1_714_560_000, 10_000, 70_999).unwrap();
    assert_eq!(stop, Timestamp { secs: 1_714_560_000 - TIMEOUT, nanos: 0 });
    assert_eq!(start, Timestamp { secs: 1_714_560_000 - TIMEOUT - 60, nanos: 0 });
    // a reversed reading rounds toward zero and starts after it stops
    let (start, stop) = flowmeter_window(100_000, 5_000, 3_500).unwrap();
    assert_eq!(start.secs - stop.secs, 1);
}

#[test]
fn flowmeter_window_refuses_what_cannot_be_stored() {
    assert_eq!(flowmeter_window(i64::MIN + 10, 0, 0), None);
    assert_eq!(flowmeter_window(0, i64::MIN, i64::MAX), None);
    assert_eq!(flowmeter_window(0, 0, i64::MAX), None);
    assert_eq!(flowmeter_window(i64::MAX, 0, 0), None);
}

#[test]
fn replies_after_storing() {
    assert_eq!(insert_reply(true), "Success 200");
    assert_eq!(insert_reply(false), "Error 500");
    assert_eq!(timestamp_reply(true, 1_714_560_000), "1714560000");
    assert_eq!(timestamp_reply(true, -42), "-42");
    assert_eq!(timestamp_reply(true, 0), "0");
    assert_eq!(timestamp_reply(false, 5), "Error 500");
}

#[test]
fn connection_string_lists_the_settings() {
    assert_eq!(
        connection_string("db", "5432", "postgres", "SECRET-REDACTED", "sensors"),
        "host=db port=5432 user=postgres password=SECRET-REDACTED dbname=sensors"
    );
}

#[test]
fn white_space_is_the_unicode_list() {
    let listed = |c: char| {
        ('\t'..='\r').contains(&c)
            || c == ' '
            || c == '\u{85}'
            || c == '\u{A0}'
            || c == '\u{1680}'
            || ('\u{2000}'..='\u{200A}').contains(&c)
            || c == '\u{2028}'
            || c == '\u{2029}'
            || c == '\u{202F}'
            || c == '\u{205F}'
            || c == '\u{3000}'
    };
    for c in (0u32..=0x10FFFF).filter_map(char::from_u32) {
        assert_eq!(c.is_whitespace(), listed(c), "{:?}", c);
    }
    // every listed character is trimmed from board names
    let spaces: String = (0u32..=0x3000).filter_map(char::from_u32).filter(|c| listed(*c)).collect();
    assert_eq!(parse_board_list(&format!("{spaces}esp32c6{spaces}")), vec!["esp32c6"]);
}

#[test]
fn header_values_accept_visible_and_non_ascii_text() {
    for (board, named) in [("esp32c6", true), ("tab\tok", true), ("nul\u{0}", false), ("del\u{7f}", false), ("ü", true)] {
        match after_firmware_open(board, Ok(())) {
            FirmwareAction::Stream { content_disposition } => {
                assert_eq!(content_disposition != "attachment", named, "{board:?}");
            }
            other => panic!("unexpected {other:?}"),
        }
    }
}
