use screenshare::capture::ffmpeg_args;

#[test]
fn splits_at_spaces() {
    let args = ffmpeg_args("-f gdigrab -framerate 30 -i desktop -f h264 -");
    assert_eq!(
        args,
        vec!["-f", "gdigrab", "-framerate", "30", "-i", "desktop", "-f", "h264", "-"]
    );
}

#[test]
fn every_space_separates() {
    assert_eq!(ffmpeg_args("a  b"), vec!["a", "", "b"]);
    assert_eq!(ffmpeg_args(" a"), vec!["", "a"]);
    assert_eq!(ffmpeg_args(""), vec![""]);
    assert_eq!(ffmpeg_args("a b\n"), vec!["a", "b\n"]);
}

#[test]
fn agrees_with_str_split() {
    for text in ["x y z", "é ü  ß", "  ", "one", "-i\tdesk top "] {
        let expected: Vec<String> = text.split(' ').map(|s| s.to_string()).collect();
        assert_eq!(ffmpeg_args(text), expected);
    }
}
