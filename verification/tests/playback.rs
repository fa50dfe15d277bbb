use playback_formatter::record::parse;
use playback_formatter::record::FieldRef;
use playback_formatter::record::ParseError;
use playback_formatter::record::PlaybackStatus;
use playback_formatter::record::PlaybackRecord;
use playback_formatter::render::render;
use playback_formatter::template::compile;
use playback_formatter::template::CompiledTemplate;
use playback_formatter::template::TemplateError;
use playback_formatter::template::Token;
use playback_formatter::unit::Unit;

fn must_parse(text: &str) -> PlaybackRecord {
    parse(text.to_string()).expect("text should parse")
}

fn must_compile(fmt: &str) -> CompiledTemplate {
    compile(fmt.to_string()).expect("format should compile")
}

#[test]
fn parses_minimal_record() {
    let r = must_parse("status playing\nposition 10\nduration 200\n");
    assert_eq!(r.status, PlaybackStatus::Playing);
    assert_eq!(r.position_seconds, 10);
    assert_eq!(r.duration_seconds, 200);
    assert_eq!(r.title, None);
    assert_eq!(r.artist, None);
    assert_eq!(r.album, None);
}

#[test]
fn rejects_unknown_status_word() {
    let e = parse("status dancing\nposition 0\nduration 0\n".to_string()).unwrap_err();
    assert_eq!(e, ParseError::InvalidStatus);
}

#[test]
fn parses_all_fields() {
    let r = must_parse(
        "status paused\nposition 75\nduration 300\nfile My Song\ntag artist Some Band\ntag album First Album\n",
    );
    assert_eq!(r.status, PlaybackStatus::Paused);
    assert_eq!(r.position_seconds, 75);
    assert_eq!(r.duration_seconds, 300);
    assert_eq!(r.title.as_deref(), Some("My Song"));
    assert_eq!(r.artist.as_deref(), Some("Some Band"));
    assert_eq!(r.album.as_deref(), Some("First Album"));
}

#[test]
fn tolerates_whitespace_and_blank_lines() {
    let r = must_parse("\n   status   stopped   \n\n\tposition  0\n  duration\t5\n   \n");
    assert_eq!(r.status, PlaybackStatus::Stopped);
    assert_eq!(r.position_seconds, 0);
    assert_eq!(r.duration_seconds, 5);
}

#[test]
fn ignores_unknown_keys() {
    let r = must_parse("volume 90\nstatus playing\nposition 1\nduration 2\nshuffle on\n");
    assert_eq!(r.status, PlaybackStatus::Playing);
    assert_eq!(r.title, None);
}

#[test]
fn ignores_unknown_tag_subkeys() {
    let r = must_parse("status playing\nposition 1\nduration 2\ntag genre rock\n");
    assert_eq!(r.artist, None);
    assert_eq!(r.album, None);
}

#[test]
fn blank_optional_value_stays_absent() {
    let r = must_parse("status playing\nposition 1\nduration 2\nfile \ntag artist   \n");
    assert_eq!(r.title, None);
    assert_eq!(r.artist, None);
}

#[test]
fn later_line_overwrites_earlier() {
    let r = must_parse("status playing\nstatus paused\nposition 1\nposition 7\nduration 2\n");
    assert_eq!(r.status, PlaybackStatus::Paused);
    assert_eq!(r.position_seconds, 7);
}

#[test]
fn reports_each_missing_field() {
    let e = parse("position 1\nduration 2\n".to_string()).unwrap_err();
    assert_eq!(e, ParseError::MissingField(FieldRef::Status));
    let e = parse("status playing\nduration 2\n".to_string()).unwrap_err();
    assert_eq!(e, ParseError::MissingField(FieldRef::Position));
    let e = parse("status playing\nposition 1\n".to_string()).unwrap_err();
    assert_eq!(e, ParseError::MissingField(FieldRef::Duration));
}

#[test]
fn rejects_non_numeric_values() {
    let e = parse("status playing\nposition ten\nduration 2\n".to_string()).unwrap_err();
    assert_eq!(e, ParseError::InvalidNumber(FieldRef::Position));
    let e = parse("status playing\nposition 1\nduration -2\n".to_string()).unwrap_err();
    assert_eq!(e, ParseError::InvalidNumber(FieldRef::Duration));
    let e = parse("status playing\nposition 1\nduration\n".to_string()).unwrap_err();
    assert_eq!(e, ParseError::InvalidNumber(FieldRef::Duration));
}

#[test]
fn rejects_out_of_range_numbers() {
    let r = must_parse("status playing\nposition 4294967295\nduration 2\n");
    assert_eq!(r.position_seconds, u32::MAX);
    let e = parse("status playing\nposition 4294967296\nduration 2\n".to_string()).unwrap_err();
    assert_eq!(e, ParseError::InvalidNumber(FieldRef::Position));
}

#[test]
fn missing_trailing_newline_is_fine() {
    let r = must_parse("status playing\nposition 10\nduration 200");
    assert_eq!(r.duration_seconds, 200);
}

#[test]
fn serializes_back_to_key_value_text() {
    let r = must_parse("status playing\nposition 10\nduration 200\nfile A Song\n");
    assert_eq!(
        r.to_status_text(),
        "status playing\nposition 10\nduration 200\nfile A Song\n"
    );
}

#[test]
fn parse_serialize_parse_round_trip() {
    let texts = [
        "status playing\nposition 10\nduration 200\n",
        "  status stopped \nposition 0\nduration 0\nnoise x\n",
        "status paused\nposition 75\nduration 300\nfile My Song\ntag artist Some Band\ntag album First Album\n",
    ];
    for text in texts {
        let first = must_parse(text);
        let again = must_parse(&first.to_status_text());
        assert_eq!(again.status, first.status);
        assert_eq!(again.position_seconds, first.position_seconds);
        assert_eq!(again.duration_seconds, first.duration_seconds);
        assert_eq!(again.title, first.title);
        assert_eq!(again.artist, first.artist);
        assert_eq!(again.album, first.album);
    }
}

#[test]
fn compiles_placeholders_and_literals() {
    let t = must_compile("%{title} - %{artist}");
    assert_eq!(
        t.tokens,
        vec![
            Token::Placeholder(FieldRef::Title),
            Token::Literal(" - ".to_string()),
            Token::Placeholder(FieldRef::Artist),
        ]
    );
}

#[test]
fn rejects_unknown_placeholder_name() {
    let e = compile("%{unknown}".to_string()).unwrap_err();
    assert_eq!(e, TemplateError::UnknownField("unknown".to_string()));
}

#[test]
fn rejects_unterminated_placeholder() {
    let e = compile("%{title".to_string()).unwrap_err();
    assert_eq!(e, TemplateError::UnterminatedPlaceholder(0));
    let e = compile("ab%{artist".to_string()).unwrap_err();
    assert_eq!(e, TemplateError::UnterminatedPlaceholder(2));
}

#[test]
fn compiles_empty_and_plain_text() {
    let t = must_compile("");
    assert_eq!(t.tokens, vec![]);
    let t = must_compile("just text");
    assert_eq!(t.tokens, vec![Token::Literal("just text".to_string())]);
}

#[test]
fn lone_percent_is_literal() {
    let t = must_compile("100% done %");
    assert_eq!(t.tokens, vec![Token::Literal("100% done %".to_string())]);
    let t = must_compile("%%{status}");
    assert_eq!(
        t.tokens,
        vec![
            Token::Literal("%".to_string()),
            Token::Placeholder(FieldRef::Status),
        ]
    );
}

#[test]
fn renders_absent_optional_as_empty() {
    let t = must_compile("%{title} - %{artist}");
    let r = PlaybackRecord {
        status: PlaybackStatus::Playing,
        position_seconds: 0,
        duration_seconds: 0,
        title: Some("Song".to_string()),
        artist: None,
        album: None,
    };
    assert_eq!(render(&t, &r), "Song - ");
}

#[test]
fn renders_every_field() {
    let t = must_compile("%{status} %{position}/%{duration} %{title} by %{artist} on %{album}");
    let r = must_parse(
        "status playing\nposition 75\nduration 300\nfile My Song\ntag artist Some Band\ntag album First Album\n",
    );
    assert_eq!(
        render(&t, &r),
        "playing 75/300 My Song by Some Band on First Album"
    );
}

#[test]
fn rendering_is_repeatable() {
    let t = must_compile("%{status}: %{position}s of %{duration}s");
    let r = must_parse("status paused\nposition 30\nduration 60\n");
    let first = render(&t, &r);
    for _ in 0..10 {
        assert_eq!(render(&t, &r), first);
    }
    assert_eq!(first, "paused: 30s of 60s");
}

#[test]
fn converts_units_to_seconds() {
    assert_eq!(Unit::Ms.to_s(1500), 1);
    assert_eq!(Unit::Ms.to_s(999), 0);
    assert_eq!(Unit::Ms.to_s(60000), 60);
    assert_eq!(Unit::S.to_s(1500), 1500);
    assert_eq!(Unit::S.to_s(0), 0);
}
