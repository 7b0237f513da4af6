use gusni::command::{split_fields, Command, Error, Exception};
use std::num::ParseFloatError;

fn read(line: &str) -> Result<Command<f64>, Exception> {
    Command::recognize(line, |s: String| s.parse::<f64>())
}

fn error_of(line: &str) -> Error {
    match read(line) {
        Err(Exception::Error(e)) => e,
        other => panic!("expected an error, got {:?}", other),
    }
}

#[test]
fn split_on_single_spaces() {
    assert_eq!(split_fields("start 1 2"), vec!["start", "1", "2"]);
    assert_eq!(split_fields("a  b"), vec!["a", "", "b"]);
    assert_eq!(split_fields(""), vec![""]);
    assert_eq!(split_fields("stop "), vec!["stop", ""]);
}

#[test]
fn exit_command() {
    assert!(matches!(read("exit"), Err(Exception::Exit)));
    assert!(matches!(read("exit now"), Err(Exception::Exit)));
}

#[test]
fn empty_line() {
    match error_of("") {
        Error::Unrecognized(w) => assert_eq!(w, ""),
        e => panic!("{:?}", e),
    }
}

#[test]
fn unrecognized_word() {
    match error_of("render 1 2") {
        Error::Unrecognized(w) => assert_eq!(w, "render"),
        e => panic!("{:?}", e),
    }
    match error_of(" start") {
        Error::Unrecognized(w) => assert_eq!(w, ""),
        e => panic!("{:?}", e),
    }
}

#[test]
fn start_with_state() {
    match read("start 640 480 8 scene.json eye.json state.bin") {
        Ok(Command::Start { width, height, threads, scene_file, eye_file, state_file }) => {
            assert_eq!((width, height, threads), (640, 480, 8));
            assert_eq!(scene_file, "scene.json");
            assert_eq!(eye_file, "eye.json");
            assert_eq!(state_file, Some("state.bin".to_string()));
        },
        other => panic!("{:?}", other),
    }
}

#[test]
fn start_without_state() {
    match read("start +16 9 1 s e") {
        Ok(Command::Start { width, height, threads, state_file, .. }) => {
            assert_eq!((width, height, threads), (16, 9, 1));
            assert_eq!(state_file, None);
        },
        other => panic!("{:?}", other),
    }
}

#[test]
fn start_errors_in_order() {
    assert!(matches!(error_of("start"), Error::TraceWrongWidth(None)));
    assert!(matches!(error_of("start x"), Error::TraceWrongWidth(Some(_))));
    assert!(matches!(error_of("start -1 2"), Error::TraceWrongWidth(Some(_))));
    assert!(matches!(error_of("start 1"), Error::TraceWrongHeight(None)));
    assert!(matches!(error_of("start 1 2.5"), Error::TraceWrongHeight(Some(_))));
    assert!(matches!(error_of("start 1 2"), Error::TraceWrongThreads(None)));
    assert!(matches!(
        error_of("start 1 2 99999999999999999999999"),
        Error::TraceWrongThreads(Some(_))
    ));
    assert!(matches!(error_of("start 1 2 3"), Error::TraceWrongSceneFile));
    assert!(matches!(error_of("start 1 2 3 scene"), Error::TraceWrongEyeFile));
}

#[test]
fn image_command() {
    match read("image 2.5 out.tga") {
        Ok(Command::Image { scale, tga_file }) => {
            assert_eq!(scale, 2.5);
            assert_eq!(tga_file, "out.tga");
        },
        other => panic!("{:?}", other),
    }
}

#[test]
fn image_errors() {
    assert!(matches!(error_of("image"), Error::ImageWrongScale(None)));
    assert!(matches!(error_of("image big out.tga"), Error::ImageWrongScale(Some(_))));
    assert!(matches!(error_of("image big"), Error::ImageWrongScale(Some(_))));
    assert!(matches!(error_of("image 1"), Error::ImageWrongTgaFile));
}

#[test]
fn image_scale_goes_through_given_parser() {
    let halve = |s: String| -> Result<f64, ParseFloatError> { s.parse::<f64>().map(|v| v / 2.0) };
    match Command::recognize("image 3 a.tga", halve) {
        Ok(Command::Image { scale, .. }) => assert_eq!(scale, 1.5),
        other => panic!("{:?}", other),
    }
}

#[test]
fn stop_command() {
    assert!(matches!(read("stop"), Ok(Command::Stop { state_file: None })));
    match read("stop state.bin") {
        Ok(Command::Stop { state_file }) => assert_eq!(state_file, Some("state.bin".to_string())),
        other => panic!("{:?}", other),
    }
}

#[test]
fn error_messages() {
    assert_eq!(Error::Empty.message(), "command is empty");
    assert_eq!(Error::Unrecognized("go".to_string()).message(), "command 'go' is unrecognized");
    assert_eq!(error_of("start").message(), "start: width is missing");
    assert_eq!(error_of("start x").message(), "start: width is not a number");
    assert_eq!(error_of("start 1").message(), "start: height is missing");
    assert_eq!(error_of("start 1 x").message(), "start: height is not a number");
    assert_eq!(error_of("start 1 2").message(), "start: thread count is missing");
    assert_eq!(error_of("start 1 2 x").message(), "start: thread count is not a number");
    assert_eq!(error_of("start 1 2 3").message(), "start: scene file is missing");
    assert_eq!(error_of("start 1 2 3 s").message(), "start: eye file is missing");
    assert_eq!(error_of("image").message(), "image: scale is missing");
    assert_eq!(error_of("image x").message(), "image: scale is not a number");
    assert_eq!(error_of("image 1").message(), "image: file is missing");
}
