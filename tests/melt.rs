use hoi4save::file::Hoi4SliceFileKind;
use hoi4save::{
    Date, Encoding, FailedResolveStrategy, FlavorText, Hoi4Error, Hoi4ErrorKind, Hoi4File, MeltOptions,
};
use jomini::binary::{BasicTokenResolver, TokenResolver};

struct TestFlavor;

impl FlavorText for TestFlavor {
    fn f32_text(&self, raw: i32) -> Vec<u8> {
        format!("{}", raw as f32 / 1000.0).into_bytes()
    }

    fn f64_text(&self, raw: i64) -> Vec<u8> {
        let v = raw as f64 / 32768.0;
        format!("{}", (v * 100000.0).floor() / 100000.0).into_bytes()
    }
}

const IS_IRONMAN: u16 = 0x2000;
const DATE: u16 = 0x2001;
const PLAYER: u16 = 0x2002;
const SAVE_VERSION: u16 = 0x2003;
const TOTAL: u16 = 0x2004;
const IRONMAN: u16 = 0x2005;
const FLAGS: u16 = 0x2006;

fn resolver() -> BasicTokenResolver {
    let lines = b"0x2000 is_ironman\n0x2001 date\n0x2002 player\n0x2003 save_version\n0x2004 total\n0x2005 ironman\n0x2006 flags\n";
    BasicTokenResolver::from_text_lines(&lines[..]).unwrap()
}

fn id(out: &mut Vec<u8>, id: u16) {
    out.extend_from_slice(&id.to_le_bytes());
}

fn equal(out: &mut Vec<u8>) {
    id(out, 0x0001);
}

fn i32_token(out: &mut Vec<u8>, x: i32) {
    id(out, 0x000c);
    out.extend_from_slice(&x.to_le_bytes());
}

fn bool_token(out: &mut Vec<u8>, x: bool) {
    id(out, 0x000e);
    out.push(u8::from(x));
}

fn string_token(out: &mut Vec<u8>, kind: u16, s: &str) {
    id(out, kind);
    out.extend_from_slice(&(s.len() as u16).to_le_bytes());
    out.extend_from_slice(s.as_bytes());
}

fn binary_save(body: &[u8]) -> Vec<u8> {
    let mut data = b"HOI4bin".to_vec();
    data.extend_from_slice(body);
    data
}

fn melt_with(
    body: &[u8],
    options: MeltOptions,
) -> (Result<hoi4save::MeltedDocument, Hoi4Error>, String) {
    let data = binary_save(body);
    let file = Hoi4File::from_slice(&data).unwrap();
    assert_eq!(file.encoding(), Encoding::Binary);
    let mut out = Vec::new();
    let r = file.melt(options, &resolver(), &TestFlavor, &mut out);
    (r, String::from_utf8(out).unwrap())
}

fn player_and_date() -> Vec<u8> {
    let mut body = Vec::new();
    id(&mut body, PLAYER);
    equal(&mut body);
    string_token(&mut body, 0x000f, "FRA");
    id(&mut body, DATE);
    equal(&mut body);
    i32_token(&mut body, 60759371);
    body
}

/// The string value of the first `key` of a text body.
fn text_field(body: &[u8], key: &str) -> Option<String> {
    let tape = jomini::TextTape::from_slice(body).unwrap();
    let reader = tape.utf8_reader();
    for (k, _op, value) in reader.fields() {
        if k.read_str() == key {
            return value.read_string().ok();
        }
    }
    None
}

#[test]
fn size_of_error_test() {
    assert_eq!(std::mem::size_of::<Hoi4Error>(), 8);
}

#[test]
fn unknown_header_is_refused() {
    match Hoi4File::from_slice(b"HELLO..rest") {
        Err(e) => assert!(matches!(e.kind(), Hoi4ErrorKind::UnknownHeader)),
        Ok(_) => panic!("expected an unknown header"),
    }
    assert!(Hoi4File::from_slice(b"HOI4").is_err());
}

#[test]
fn plaintext_sniff_and_identity_melt() {
    let data = b"HOI4txt\nplayer=FRA\ndate=1936.1.1.12\n";
    let file = Hoi4File::from_slice(data).unwrap();
    assert_eq!(file.encoding(), Encoding::Plaintext);
    match file.kind() {
        Hoi4SliceFileKind::Text(t) => assert_eq!(t.get_ref(), &data[7..]),
        _ => panic!("expected text"),
    }
    let mut out = Vec::new();
    let doc = file
        .melt(MeltOptions::new(), &resolver(), &TestFlavor, &mut out)
        .unwrap();
    assert!(doc.unknown_tokens().is_empty());
    assert_eq!(&out[..], &data[..]);
    assert_eq!(text_field(&out[7..], "player"), Some(String::from("FRA")));
    let date = text_field(&out[7..], "date").unwrap();
    assert_eq!(Date::parse_from_str(&date).unwrap().game_fmt(), "1936.1.1.12");
}

#[test]
fn binary_melt_writes_keys_values_and_dates() {
    let options = MeltOptions::new().on_failed_resolve(FailedResolveStrategy::Error);
    let (r, text) = melt_with(&player_and_date(), options);
    assert!(r.unwrap().unknown_tokens().is_empty());
    assert_eq!(text, "HOI4txt\nplayer=\"FRA\"\ndate=1936.1.1.12\n");
    assert!(text.starts_with("HOI4txt\n"));
    let melted = Hoi4File::from_slice(text.as_bytes()).unwrap();
    assert_eq!(melted.encoding(), Encoding::Plaintext);
    let body = &text.as_bytes()[7..];
    assert_eq!(text_field(body, "player"), Some(String::from("FRA")));
    let date = text_field(body, "date").unwrap();
    assert_eq!(Date::parse_from_str(&date).unwrap().game_fmt(), "1936.1.1.12");
}

#[test]
fn ironman_key_is_elided_unless_verbatim() {
    let mut body = Vec::new();
    id(&mut body, IS_IRONMAN);
    equal(&mut body);
    bool_token(&mut body, true);
    id(&mut body, DATE);
    equal(&mut body);
    i32_token(&mut body, 60759371);
    let (r, text) = melt_with(&body, MeltOptions::new());
    r.unwrap();
    assert_eq!(text, "HOI4txt\ndate=1936.1.1.12\n");
    let (r, text) = melt_with(&body, MeltOptions::new().verbatim(true));
    r.unwrap();
    assert_eq!(text, "HOI4txt\nis_ironman=yes\ndate=1936.1.1.12\n");
}

#[test]
fn elided_ironman_object_is_skipped_whole() {
    let mut body = Vec::new();
    id(&mut body, IRONMAN);
    equal(&mut body);
    id(&mut body, 0x0003);
    id(&mut body, FLAGS);
    equal(&mut body);
    id(&mut body, 0x0003);
    i32_token(&mut body, 1);
    id(&mut body, 0x0004);
    id(&mut body, 0x0004);
    id(&mut body, TOTAL);
    equal(&mut body);
    i32_token(&mut body, 60759371);
    let (r, text) = melt_with(&body, MeltOptions::new());
    r.unwrap();
    assert_eq!(text, "HOI4txt\ntotal=60759371\n");
}

#[test]
fn null_padding_is_skipped() {
    let mut body = Vec::new();
    id(&mut body, 0x0000);
    equal(&mut body);
    i32_token(&mut body, 5);
    body.extend_from_slice(&player_and_date());
    id(&mut body, 0xffff);
    let options = MeltOptions::new().on_failed_resolve(FailedResolveStrategy::Error);
    let (r, text) = melt_with(&body, options);
    assert!(r.unwrap().unknown_tokens().is_empty());
    assert_eq!(text, "HOI4txt\nplayer=\"FRA\"\ndate=1936.1.1.12\n");
}

#[test]
fn stringify_writes_and_records_unknown_tokens() {
    let mut body = Vec::new();
    id(&mut body, 0x1234);
    equal(&mut body);
    id(&mut body, 0x00ab);
    let options = MeltOptions::new().on_failed_resolve(FailedResolveStrategy::Stringify);
    let (r, text) = melt_with(&body, options);
    let doc = r.unwrap();
    assert_eq!(text, "HOI4txt\n__unknown_0x1234=__unknown_0xab\n");
    assert_eq!(doc.unknown_tokens().len(), 2);
    assert!(doc.unknown_tokens().contains(&0x1234));
    assert!(doc.unknown_tokens().contains(&0x00ab));
}

#[test]
fn ignore_drops_unknown_keys_with_their_values() {
    let mut body = Vec::new();
    id(&mut body, 0x1234);
    equal(&mut body);
    i32_token(&mut body, 7);
    id(&mut body, PLAYER);
    equal(&mut body);
    id(&mut body, 0x00ab);
    let (r, text) = melt_with(&body, MeltOptions::new());
    let doc = r.unwrap();
    assert_eq!(text, "HOI4txt\nplayer=__unknown_0xab\n");
    assert_eq!(doc.unknown_tokens().len(), 1);
    assert!(doc.unknown_tokens().contains(&0x00ab));
}

#[test]
fn error_policy_fails_on_unknown_token() {
    let mut body = Vec::new();
    id(&mut body, 0x1234);
    let options = MeltOptions::new().on_failed_resolve(FailedResolveStrategy::Error);
    let (r, _) = melt_with(&body, options);
    match r {
        Err(e) => assert!(matches!(
            e.kind(),
            Hoi4ErrorKind::UnknownToken { token_id: 0x1234 }
        )),
        Ok(_) => panic!("expected an unknown token"),
    }
}

#[test]
fn invalid_date_under_date_key() {
    let mut body = Vec::new();
    id(&mut body, DATE);
    equal(&mut body);
    i32_token(&mut body, 3);
    let options = MeltOptions::new().on_failed_resolve(FailedResolveStrategy::Error);
    match melt_with(&body, options).0 {
        Err(e) => assert!(matches!(e.kind(), Hoi4ErrorKind::InvalidDate(3))),
        Ok(_) => panic!("expected an invalid date"),
    }
    let (r, text) = melt_with(&body, MeltOptions::new());
    r.unwrap();
    assert_eq!(text, "HOI4txt\ndate=3\n");
}

#[test]
fn truncated_token_is_eof() {
    let mut body = Vec::new();
    id(&mut body, DATE);
    equal(&mut body);
    id(&mut body, 0x000c);
    body.extend_from_slice(&[1, 2]);
    match melt_with(&body, MeltOptions::new()).0 {
        Err(e) => assert!(matches!(e.kind(), Hoi4ErrorKind::Eof)),
        Ok(_) => panic!("expected eof"),
    }
}

#[test]
fn save_version_switches_scaled_numbers() {
    let mut body = Vec::new();
    id(&mut body, SAVE_VERSION);
    equal(&mut body);
    i32_token(&mut body, 30);
    id(&mut body, TOTAL);
    equal(&mut body);
    id(&mut body, 0x000d);
    body.extend_from_slice(&(-250000i64).to_le_bytes());
    let (r, text) = melt_with(&body, MeltOptions::new());
    r.unwrap();
    assert_eq!(text, "HOI4txt\nsave_version=30\ntotal=-2\n");
}

#[test]
fn flavored_floats_use_the_flavor() {
    let mut body = Vec::new();
    id(&mut body, TOTAL);
    equal(&mut body);
    id(&mut body, 0x000d);
    body.extend_from_slice(&1500i32.to_le_bytes());
    id(&mut body, PLAYER);
    equal(&mut body);
    id(&mut body, 0x0167);
    body.extend_from_slice(&0i64.to_le_bytes());
    let (r, text) = melt_with(&body, MeltOptions::new());
    r.unwrap();
    assert_eq!(text, "HOI4txt\ntotal=1.5\nplayer=0\n");
}

#[test]
fn quoted_string_at_container_start() {
    let mut body = Vec::new();
    id(&mut body, FLAGS);
    equal(&mut body);
    id(&mut body, 0x0003);
    string_token(&mut body, 0x000f, "a");
    equal(&mut body);
    i32_token(&mut body, 1);
    id(&mut body, 0x0004);
    id(&mut body, PLAYER);
    equal(&mut body);
    id(&mut body, 0x0003);
    string_token(&mut body, 0x000f, "x");
    string_token(&mut body, 0x000f, "y");
    id(&mut body, 0x0004);
    let (r, text) = melt_with(&body, MeltOptions::new());
    r.unwrap();
    assert_eq!(text, "HOI4txt\nflags={\n\ta=1\n}\nplayer={\n\t\"x\" \"y\"\n}\n");
}

#[test]
fn resolver_last_wins() {
    let r = BasicTokenResolver::from_text_lines(&b"0x1 a\n0x1 b\n"[..]).unwrap();
    assert_eq!(r.resolve(1), Some("b"));
}

#[test]
fn options_builders() {
    let o = MeltOptions::new();
    assert!(!o.verbatim);
    assert_eq!(o.on_failed_resolve, FailedResolveStrategy::Ignore);
    let o = o.verbatim(true).on_failed_resolve(FailedResolveStrategy::Stringify);
    assert!(o.verbatim);
    assert_eq!(o.on_failed_resolve, FailedResolveStrategy::Stringify);
    assert_eq!(MeltOptions::default(), MeltOptions::new());
}

#[test]
fn unbalanced_close_is_a_writer_error() {
    let mut body = Vec::new();
    id(&mut body, 0x0004);
    match melt_with(&body, MeltOptions::new()).0 {
        Err(e) => assert!(matches!(e.kind(), Hoi4ErrorKind::Writer(_))),
        Ok(_) => panic!("expected a writer error"),
    }
}

#[test]
fn empty_binary_body_melts_to_header_and_newline() {
    let (r, text) = melt_with(&[], MeltOptions::new());
    assert!(r.unwrap().unknown_tokens().is_empty());
    assert_eq!(text, "HOI4txt\n\n");
}
