use transcriber_kun::files::export_extension;
use transcriber_kun::output::{event_line, exited_with_code, first_json_line, last_json_line, no_json};

#[test]
fn event_lines() {
    assert_eq!(event_line("  {\"type\":\"log\"}  "), Some("{\"type\":\"log\"}".to_string()));
    assert_eq!(event_line("   "), None);
    assert_eq!(event_line("progress 10%"), None);
    assert_eq!(event_line(""), None);
}

#[test]
fn first_and_last_json_lines() {
    let out = "warn\n {\"a\":1}\nmid\n\t{\"b\":2}\ntail\n";
    assert_eq!(first_json_line(out), Some(" {\"a\":1}".to_string()));
    assert_eq!(last_json_line(out), Some("\t{\"b\":2}".to_string()));
    assert_eq!(first_json_line("none\nhere"), None);
    assert_eq!(last_json_line(""), None);
    assert_eq!(last_json_line("{\"x\":1}\r\n"), Some("{\"x\":1}".to_string()));
}

#[test]
fn exit_messages() {
    assert_eq!(exited_with_code("Memo generator", Some(0)), "Memo generator exited with code 0");
    assert_eq!(exited_with_code("X", Some(-9)), "X exited with code -9");
    assert_eq!(exited_with_code("X", None), "X exited with code -1");
    assert_eq!(no_json("tool", "o", "e"), "No JSON in tool output.\nstdout: o\nstderr: e");
}

#[test]
fn export_extensions() {
    assert_eq!(export_extension("transcript.srt"), "srt");
    assert_eq!(export_extension("a.b.txt"), "txt");
    assert_eq!(export_extension("noext"), "noext");
    assert_eq!(export_extension("trailing."), "");
}
