use commcomm::decoder::dictionary::{fold, fold_text, word_to_key, DictEntry, DictionaryError};
use commcomm::decoder::Dictionary;
use commcomm::json::Json;

fn entry(frequency: u64, word: &str) -> DictEntry {
    DictEntry { frequency, word: word.to_string() }
}

#[test]
fn accented_and_plain_forms_share_a_key() {
    let mut dictionary = Dictionary::new();
    dictionary.insert("caf\u{e9}", 5);
    assert_eq!(dictionary.lookup("caf\u{e9}"), vec![entry(5, "caf\u{e9}")]);
    assert_eq!(dictionary.lookup("cafe"), dictionary.lookup("caf\u{e9}"));
    assert_eq!(dictionary.lookup("CAFE"), vec![entry(5, "caf\u{e9}")]);
}

#[test]
fn forms_are_kept_in_the_order_of_insertion() {
    let mut dictionary = Dictionary::new();
    dictionary.insert("cafe", 2);
    dictionary.insert("tea", 9);
    dictionary.insert("Caf\u{e9}", 7);
    dictionary.insert("cafe", 1);
    assert_eq!(
        dictionary.lookup("cafe"),
        vec![entry(2, "cafe"), entry(7, "Caf\u{e9}"), entry(1, "cafe")]
    );
    assert_eq!(dictionary.lookup("tea"), vec![entry(9, "tea")]);
}

#[test]
fn unknown_word_has_no_entries() {
    let mut dictionary = Dictionary::new();
    assert!(dictionary.lookup("cafe").is_empty());
    dictionary.insert("tea", 1);
    assert!(dictionary.lookup("cafe").is_empty());
}

#[test]
fn key_is_lower_case() {
    assert_eq!(word_to_key("Hello"), "hello");
    assert_eq!(word_to_key("\u{c9}COLE"), "ecole");
}

#[test]
fn key_leaves_out_separators() {
    assert_eq!(word_to_key("o'neil"), "oneil");
    assert_eq!(word_to_key("a+b-c.d/e_f g"), "abcdefg");
    assert_eq!(word_to_key("' +-./_"), "");
    assert_eq!(word_to_key("CO\u{2082}"), "co");
    assert_eq!(fold('\u{2082}'), None);
}

#[test]
fn key_folds_diacritics() {
    assert_eq!(word_to_key("\u{e0}\u{e1}\u{e2}\u{e4}\u{e5}"), "aaaaa");
    assert_eq!(word_to_key("\u{e7}"), "c");
    assert_eq!(word_to_key("\u{e8}\u{e9}\u{ea}\u{eb}"), "eeee");
    assert_eq!(word_to_key("\u{ed}\u{ee}\u{ef}"), "iii");
    assert_eq!(word_to_key("\u{f1}"), "n");
    assert_eq!(word_to_key("\u{f3}\u{f4}\u{f6}"), "ooo");
    assert_eq!(word_to_key("\u{fa}\u{fb}\u{fc}"), "uuu");
}

#[test]
fn key_keeps_what_it_does_not_know() {
    // These letters have a diacritic too, but are not among those that are
    // folded.
    assert_eq!(word_to_key("\u{ec}\u{f2}\u{f9}\u{e3}"), "\u{ec}\u{f2}\u{f9}\u{e3}");
    assert_eq!(word_to_key("abc123"), "abc123");
    assert_eq!(fold('x'), Some('x'));
    assert_eq!(fold('-'), None);
    assert_eq!(fold('\u{e9}'), Some('e'));
}

#[test]
fn dictionary_survives_being_stored() {
    let mut dictionary = Dictionary::new();
    dictionary.insert("caf\u{e9}", 5);
    let reloaded = Dictionary::from_bytes(&dictionary.to_bytes()).unwrap();
    assert_eq!(reloaded.lookup("caf\u{e9}"), reloaded.lookup("cafe"));
    assert_eq!(reloaded.lookup("cafe"), vec![entry(5, "caf\u{e9}")]);
    assert_eq!(reloaded.lookup("cafe"), dictionary.lookup("cafe"));
}

#[test]
fn stored_dictionary_keeps_every_form() {
    let mut dictionary = Dictionary::new();
    dictionary.insert("tea", 9);
    dictionary.insert("cafe", 2);
    dictionary.insert("Caf\u{e9}", 7);
    dictionary.insert("o'neil", u64::MAX);
    let reloaded = Dictionary::from_bytes(&dictionary.to_bytes()).unwrap();
    assert_eq!(reloaded.lookup("cafe"), vec![entry(2, "cafe"), entry(7, "Caf\u{e9}")]);
    assert_eq!(reloaded.lookup("tea"), vec![entry(9, "tea")]);
    assert_eq!(reloaded.lookup("oneil"), vec![entry(u64::MAX, "o'neil")]);
    assert!(reloaded.lookup("milk").is_empty());
}

#[test]
fn stored_dictionary_is_compressed_json() {
    let mut dictionary = Dictionary::new();
    dictionary.insert("tea", 9);
    dictionary.insert("caf\u{e9}", 5);
    dictionary.insert("cafe", 1);
    let data = dictionary.to_bytes();
    let mut text = String::new();
    std::io::Read::read_to_string(&mut flate2::read::ZlibDecoder::new(&data[..]), &mut text).unwrap();
    assert_eq!(text, "{\"cafe\":[[5,\"caf\u{e9}\"],[1,\"cafe\"]],\"tea\":[[9,\"tea\"]]}");
}

#[test]
fn dictionary_is_read_from_what_another_program_stored() {
    let text = "{\"tea\": [[9, \"tea\"], [1, \"T\u{e9}a\"]], \"cafe\": []}";
    let mut encoder = flate2::write::ZlibEncoder::new(Vec::new(), flate2::Compression::fast());
    std::io::Write::write_all(&mut encoder, text.as_bytes()).unwrap();
    let data = encoder.finish().unwrap();
    let dictionary = Dictionary::from_bytes(&data).unwrap();
    assert_eq!(dictionary.lookup("tea"), vec![entry(9, "tea"), entry(1, "T\u{e9}a")]);
    assert!(dictionary.lookup("cafe").is_empty());
}

#[test]
fn empty_dictionary_is_stored_as_an_empty_object() {
    let dictionary = Dictionary::new();
    assert_eq!(dictionary.to_json(), Json::Object(vec![]));
    let reloaded = Dictionary::from_bytes(&dictionary.to_bytes()).unwrap();
    assert!(reloaded.lookup("tea").is_empty());
}

#[test]
fn later_field_of_a_name_counts() {
    let document = Json::Object(vec![
        ("tea".to_string(), Json::List(vec![pair(1, "tea")])),
        ("milk".to_string(), Json::List(vec![pair(2, "milk")])),
        ("tea".to_string(), Json::List(vec![pair(3, "Tea"), pair(4, "TEA")])),
    ]);
    let dictionary = Dictionary::from_json(&document).unwrap();
    assert_eq!(dictionary.lookup("tea"), vec![entry(3, "Tea"), entry(4, "TEA")]);
    assert_eq!(dictionary.lookup("milk"), vec![entry(2, "milk")]);
}

#[test]
fn bytes_that_are_no_dictionary_are_refused() {
    assert_eq!(Dictionary::from_bytes(b"not compressed").err(), Some(DictionaryError::NotCompressed));
    assert_eq!(Dictionary::from_bytes(&[]).err(), Some(DictionaryError::NotCompressed));
    assert_eq!(Dictionary::from_bytes(&compressed(b"{\"tea\": ")).err(), Some(DictionaryError::NotJson));
    assert_eq!(
        Dictionary::from_bytes(&compressed(&[b'"', 0xff, b'"'])).err(),
        Some(DictionaryError::NotCompressed)
    );
    for text in [
        "[]",
        "null",
        "{\"tea\": 5}",
        "{\"tea\": [5]}",
        "{\"tea\": [[5]]}",
        "{\"tea\": [[5, \"tea\", 1]]}",
        "{\"tea\": [[\"tea\", 5]]}",
        "{\"tea\": [[-5, \"tea\"]]}",
        "{\"tea\": [[1.5, \"tea\"]]}",
        "{\"tea\": [[5, \"tea\"]], \"milk\": [[5, \"milk\"], 3]}",
    ] {
        assert_eq!(
            Dictionary::from_bytes(&compressed(text.as_bytes())).err(),
            Some(DictionaryError::NotADictionary),
            "{}",
            text
        );
    }
}

fn compressed(data: &[u8]) -> Vec<u8> {
    let mut encoder = flate2::write::ZlibEncoder::new(Vec::new(), flate2::Compression::best());
    std::io::Write::write_all(&mut encoder, data).unwrap();
    encoder.finish().unwrap()
}

fn pair(frequency: u64, word: &str) -> Json {
    Json::List(vec![Json::Unsigned(frequency), Json::Text(word.to_string())])
}

#[test]
fn folding_leaves_the_case_as_it_is() {
    assert_eq!(fold_text("caf\u{e9}"), "cafe");
    assert_eq!(fold_text("O'Neil"), "ONeil");
    assert_eq!(fold_text("\u{c9}t\u{e9}"), "\u{c9}te");
    assert_eq!(fold_text("a-b c"), "abc");
    assert_eq!(fold_text(""), "");
}
