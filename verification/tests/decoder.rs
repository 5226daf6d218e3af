use commcomm::config::{
    Arduino, ArduinoSensor, Configuration, Decoder as DecoderConfig, DecoderPrediction, Speech,
};
use commcomm::decoder::{replace_first, Decoder, Input, InputEvent, SchemeError};

fn sensor() -> ArduinoSensor {
    ArduinoSensor {
        pin: "A0".to_string(),
        label: "finger".to_string(),
        limits: (0, 1023),
        thresholds: (100, 150),
    }
}

fn configuration(sensors: usize, confirm: usize, scheme: &[(&str, &[usize])]) -> Configuration {
    Configuration {
        speech: Speech { engine: "espeak".to_string(), sapi: None, espeak: None },
        arduino: Arduino {
            board: "leonardo".to_string(),
            port: "COM3".to_string(),
            sensors: (0..sensors).map(|_| sensor()).collect(),
        },
        decoder: DecoderConfig {
            confirm,
            scheme: scheme.iter().map(|(command, chord)| (command.to_string(), chord.to_vec())).collect(),
            prediction: DecoderPrediction { dictionary: None, suggestions: 3 },
        },
    }
}

fn two_letter_decoder() -> Decoder {
    let config = configuration(10, 9, &[("append:a", &[0]), ("append:b", &[0, 1])]);
    Decoder::new(&config, None).unwrap()
}

fn feed(decoder: &mut Decoder, ids: &[usize]) -> Vec<Option<InputEvent>> {
    ids.iter().map(|id| decoder.process_input(*id)).collect()
}

#[test]
fn single_id_chord_commits_its_fragment() {
    let mut decoder = two_letter_decoder();
    let events = feed(&mut decoder, &[0, 9]);
    assert_eq!(events, vec![None, Some(InputEvent::Letters("A".to_string()))]);
    assert_eq!(decoder.line(), "A");
}

#[test]
fn two_id_chord_commits_its_fragment() {
    let mut decoder = two_letter_decoder();
    let events = feed(&mut decoder, &[0, 1, 9]);
    assert_eq!(events, vec![None, None, Some(InputEvent::Letters("B".to_string()))]);
    assert_eq!(decoder.line(), "B");
}

#[test]
fn unknown_chord_is_illegal_and_clears_the_buffer() {
    let mut decoder = two_letter_decoder();
    let events = feed(&mut decoder, &[1, 9]);
    assert_eq!(events, vec![None, Some(InputEvent::Illegal)]);
    assert_eq!(decoder.line(), "");
    // The buffer is empty again: every action is predicted, and the next
    // chord is read from its first id on.
    assert_eq!(decoder.predict_input().len(), 2);
    let events = feed(&mut decoder, &[0, 9]);
    assert_eq!(events, vec![None, Some(InputEvent::Letters("A".to_string()))]);
}

#[test]
fn empty_chord_is_illegal() {
    let mut decoder = two_letter_decoder();
    assert_eq!(decoder.process_input(9), Some(InputEvent::Illegal));
}

#[test]
fn prediction_on_empty_buffer_gives_every_action() {
    let decoder = two_letter_decoder();
    let predicted = decoder.predict_input();
    assert_eq!(predicted, vec![&Input::Append("a".to_string()), &Input::Append("b".to_string())]);
}

#[test]
fn prediction_matches_by_prefix() {
    let mut decoder = two_letter_decoder();
    decoder.process_input(0);
    assert_eq!(
        decoder.predict_input(),
        vec![&Input::Append("a".to_string()), &Input::Append("b".to_string())]
    );
    decoder.process_input(1);
    assert_eq!(decoder.predict_input(), vec![&Input::Append("b".to_string())]);
    decoder.process_input(2);
    assert!(decoder.predict_input().is_empty());
}

#[test]
fn prediction_leaves_out_chords_that_only_come_later() {
    let config = configuration(
        10,
        9,
        &[("append:c", &[1, 0]), ("append:a", &[0]), ("delete", &[2]), ("append:b", &[1])],
    );
    let mut decoder = Decoder::new(&config, None).unwrap();
    decoder.process_input(1);
    assert_eq!(
        decoder.predict_input(),
        vec![&Input::Append("b".to_string()), &Input::Append("c".to_string())]
    );
}

#[test]
fn prediction_is_in_the_order_of_chords() {
    let config = configuration(
        10,
        9,
        &[("delete", &[2]), ("append:b", &[0, 1]), ("append:c", &[1]), ("append:a", &[0])],
    );
    let decoder = Decoder::new(&config, None).unwrap();
    assert_eq!(
        decoder.predict_input(),
        vec![
            &Input::Append("a".to_string()),
            &Input::Append("b".to_string()),
            &Input::Append("c".to_string()),
            &Input::Delete
        ]
    );
}

#[test]
fn prediction_range_has_no_end_after_the_largest_id() {
    let config = configuration(10, 9, &[("append:a", &[0]), ("append:b", &[1])]);
    let mut decoder = Decoder::new(&config, None).unwrap();
    decoder.process_input(0);
    decoder.process_input(usize::MAX);
    // No chord starts with [0, MAX], but the range from it on has no end.
    assert_eq!(decoder.predict_input(), vec![&Input::Append("b".to_string())]);
}

#[test]
fn repeated_confirm_gives_no_event() {
    let mut decoder = two_letter_decoder();
    let events = feed(&mut decoder, &[0, 9, 9, 9]);
    assert_eq!(events, vec![None, Some(InputEvent::Letters("A".to_string())), None, None]);
    assert_eq!(decoder.line(), "A");
    // Another id ends the streak.
    let events = feed(&mut decoder, &[0, 1, 9]);
    assert_eq!(events, vec![None, None, Some(InputEvent::Letters("b".to_string()))]);
    assert_eq!(decoder.line(), "Ab");
}

#[test]
fn only_the_first_fragment_of_the_line_is_capitalised() {
    let config = configuration(10, 9, &[("append:hello", &[0]), ("append: world", &[1])]);
    let mut decoder = Decoder::new(&config, None).unwrap();
    assert_eq!(feed(&mut decoder, &[0, 9])[1], Some(InputEvent::Letters("Hello".to_string())));
    assert_eq!(feed(&mut decoder, &[1, 9])[1], Some(InputEvent::Letters(" world".to_string())));
    assert_eq!(decoder.line(), "Hello world");
}

#[test]
fn capital_of_a_letter_may_be_two_letters() {
    let config = configuration(10, 9, &[("append:\u{df}a", &[0])]);
    let mut decoder = Decoder::new(&config, None).unwrap();
    assert_eq!(feed(&mut decoder, &[0, 9])[1], Some(InputEvent::Letters("SSa".to_string())));
}

#[test]
fn empty_fragment_stays_empty() {
    let config = configuration(10, 9, &[("append:", &[0]), ("append:x", &[1])]);
    let mut decoder = Decoder::new(&config, None).unwrap();
    assert_eq!(feed(&mut decoder, &[0, 9])[1], Some(InputEvent::Letters(String::new())));
    // The word is not empty any more, so the next fragment stays as it is.
    assert_eq!(feed(&mut decoder, &[1, 9])[1], Some(InputEvent::Letters("x".to_string())));
    assert_eq!(decoder.line(), "x");
}

#[test]
fn delete_takes_the_last_fragment() {
    let config = configuration(10, 9, &[("append:ab", &[0]), ("append:cd", &[1]), ("delete", &[2])]);
    let mut decoder = Decoder::new(&config, None).unwrap();
    feed(&mut decoder, &[0, 9, 1, 9]);
    assert_eq!(decoder.line(), "Abcd");
    assert_eq!(feed(&mut decoder, &[2, 9])[1], Some(InputEvent::DeleteLetter));
    assert_eq!(decoder.line(), "Ab");
    feed(&mut decoder, &[2, 9]);
    assert_eq!(decoder.line(), "");
    // Nothing is left to take.
    assert_eq!(feed(&mut decoder, &[2, 9])[1], Some(InputEvent::DeleteLetter));
    assert_eq!(decoder.line(), "");
    // The line is empty again, so the next fragment starts it.
    assert_eq!(feed(&mut decoder, &[1, 9])[1], Some(InputEvent::Letters("Cd".to_string())));
}

#[test]
fn question_is_recognised_and_does_nothing() {
    let config = configuration(10, 9, &[("question", &[3]), ("append:a", &[0])]);
    let mut decoder = Decoder::new(&config, None).unwrap();
    assert_eq!(decoder.predict_input(), vec![&Input::Append("a".to_string()), &Input::Question]);
    feed(&mut decoder, &[0, 9]);
    assert_eq!(feed(&mut decoder, &[3, 9]), vec![None, None]);
    assert_eq!(decoder.line(), "A");
    assert_eq!(decoder.predict_input().len(), 2);
}

#[test]
fn scheme_with_an_unconfigured_sensor_is_refused() {
    let config = configuration(2, 9, &[("append:a", &[0]), ("append:b", &[1, 2])]);
    assert_eq!(Decoder::new(&config, None).err(), Some(SchemeError::SensorOutOfRange(2)));
}

#[test]
fn scheme_with_the_confirm_id_in_a_chord_is_refused() {
    let config = configuration(10, 9, &[("append:a", &[0]), ("append:b", &[1, 9])]);
    assert_eq!(Decoder::new(&config, None).err(), Some(SchemeError::ConfirmInChord));
}

#[test]
fn scheme_with_the_same_chord_twice_is_refused() {
    let config = configuration(10, 9, &[("append:a", &[0, 1]), ("delete", &[2]), ("append:b", &[0, 1])]);
    assert_eq!(Decoder::new(&config, None).err(), Some(SchemeError::DuplicateChord(vec![0, 1])));
}

#[test]
fn scheme_with_an_unknown_command_is_refused() {
    let config = configuration(10, 9, &[("append:a", &[0]), ("shout", &[1])]);
    assert_eq!(
        Decoder::new(&config, None).err(),
        Some(SchemeError::UnknownCommand("shout".to_string()))
    );
}

#[test]
fn first_fault_of_the_scheme_is_reported() {
    // The second entry is the first one with a fault; in its chord the id
    // that is out of range comes before the confirm id.
    let config = configuration(3, 1, &[("delete", &[0]), ("append:a", &[2, 5, 1]), ("bad", &[0])]);
    assert_eq!(Decoder::new(&config, None).err(), Some(SchemeError::SensorOutOfRange(5)));
    // The confirm id is out of range too, and that is found first.
    let config = configuration(3, 7, &[("append:a", &[7])]);
    assert_eq!(Decoder::new(&config, None).err(), Some(SchemeError::SensorOutOfRange(7)));
}

#[test]
fn empty_scheme_makes_a_decoder() {
    let config = configuration(0, 0, &[]);
    let mut decoder = Decoder::new(&config, None).unwrap();
    assert!(decoder.predict_input().is_empty());
    assert_eq!(decoder.process_input(0), Some(InputEvent::Illegal));
    assert_eq!(decoder.process_input(5), None);
}

#[test]
fn decoder_keeps_its_dictionary() {
    let config = configuration(10, 9, &[("append:a", &[0])]);
    let mut dictionary = commcomm::decoder::Dictionary::new();
    dictionary.insert("tea", 4);
    let decoder = Decoder::new(&config, Some(dictionary)).unwrap();
    let kept = decoder.dictionary().unwrap();
    assert_eq!(kept.lookup("TEA").len(), 1);
    assert_eq!(kept.lookup("TEA")[0].frequency, 4);
    assert!(two_letter_decoder().dictionary().is_none());
}

#[test]
fn refused_scheme_is_refused_with_a_dictionary_too() {
    let config = configuration(10, 9, &[("append:a", &[9])]);
    let dictionary = commcomm::decoder::Dictionary::new();
    assert_eq!(Decoder::new(&config, Some(dictionary)).err(), Some(SchemeError::ConfirmInChord));
}

#[test]
fn first_character_is_replaced() {
    assert_eq!(replace_first("hello".to_string(), "H"), "Hello");
    assert_eq!(replace_first("\u{df}a".to_string(), "SS"), "SSa");
    assert_eq!(replace_first("a".to_string(), ""), "");
    assert_eq!(replace_first(String::new(), "X"), "");
}
