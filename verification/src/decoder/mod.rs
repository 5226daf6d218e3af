//! The chord decoder: from the ids of the sensors that were activated to text.
//!
//! Ids are collected into a chord until the confirming sensor is activated.
//! The first confirmation looks the chord up in the scheme and does what the
//! scheme says; the ones that follow it directly do nothing.

use crate::config::Configuration;
use crate::text::{char_uppercase, same_text, starts_with, uppercase};
use vstd::prelude::*;
use vstd::string::*;

pub mod chord;
pub mod dictionary;
pub mod scheme;

pub use dictionary::Dictionary;

use chord::{extension_range, lemma_extension_range, ChordRange};
use scheme::{actions_within, bound_to, rising, InputScheme};

verus! {

/// What a chord of the scheme does when it is confirmed.
#[derive(Debug, PartialEq, Eq)]
pub enum Input {
    /// Adds a fragment to the word that is being written.
    Append(String),
    /// Takes the last fragment off the word that is being written.
    Delete,
    /// Reserved: recognised, and without effect.
    Question,
}

/// An [`Input`] with its text as a sequence of characters.
pub enum InputModel {
    Append(Seq<char>),
    Delete,
    Question,
}

impl View for Input {
    type V = InputModel;

    open spec fn view(&self) -> InputModel {
        match self {
            Input::Append(text) => InputModel::Append(text@),
            Input::Delete => InputModel::Delete,
            Input::Question => InputModel::Question,
        }
    }
}

impl Clone for Input {
    fn clone(&self) -> (copy: Input)
        ensures
            copy@ == self@,
    {
        match self {
            Input::Append(text) => Input::Append(text.clone()),
            Input::Delete => Input::Delete,
            Input::Question => Input::Question,
        }
    }
}

/// What a confirmation did.
#[derive(Debug, PartialEq, Eq)]
pub enum InputEvent {
    /// The chord stands for nothing.
    Illegal,
    DeleteLetter,
    DeleteWord,
    DeleteLine,
    /// The fragment that was added, as it was added.
    Letters(String),
    Word(String),
    Line(String),
}

/// An [`InputEvent`] with its text as a sequence of characters.
pub enum InputEventModel {
    Illegal,
    DeleteLetter,
    DeleteWord,
    DeleteLine,
    Letters(Seq<char>),
    Word(Seq<char>),
    Line(Seq<char>),
}

impl View for InputEvent {
    type V = InputEventModel;

    open spec fn view(&self) -> InputEventModel {
        match self {
            InputEvent::Illegal => InputEventModel::Illegal,
            InputEvent::DeleteLetter => InputEventModel::DeleteLetter,
            InputEvent::DeleteWord => InputEventModel::DeleteWord,
            InputEvent::DeleteLine => InputEventModel::DeleteLine,
            InputEvent::Letters(text) => InputEventModel::Letters(text@),
            InputEvent::Word(text) => InputEventModel::Word(text@),
            InputEvent::Line(text) => InputEventModel::Line(text@),
        }
    }
}

/// Why a scheme was refused.
#[derive(Debug, PartialEq, Eq)]
pub enum SchemeError {
    /// The command is none of `question`, `delete` and `append:` with a text.
    UnknownCommand(String),
    /// A chord names a sensor that is not configured.
    SensorOutOfRange(usize),
    /// A chord names the sensor that confirms.
    ConfirmInChord,
    /// Two commands have this chord.
    DuplicateChord(Vec<usize>),
}

/// A [`SchemeError`] as plain values.
pub enum SchemeFault {
    UnknownCommand(Seq<char>),
    SensorOutOfRange(usize),
    ConfirmInChord,
    DuplicateChord(Seq<usize>),
}

impl View for SchemeError {
    type V = SchemeFault;

    open spec fn view(&self) -> SchemeFault {
        match self {
            SchemeError::UnknownCommand(command) => SchemeFault::UnknownCommand(command@),
            SchemeError::SensorOutOfRange(id) => SchemeFault::SensorOutOfRange(*id),
            SchemeError::ConfirmInChord => SchemeFault::ConfirmInChord,
            SchemeError::DuplicateChord(chord) => SchemeFault::DuplicateChord(chord@),
        }
    }
}

/// What a command of the configuration stands for, if it is one.
pub open spec fn command_action(command: Seq<char>) -> Option<InputModel> {
    if command == "question"@ {
        Some(InputModel::Question)
    } else if command == "delete"@ {
        Some(InputModel::Delete)
    } else if "append:"@.is_prefix_of(command) {
        Some(InputModel::Append(command.skip(7)))
    } else {
        None
    }
}

/// What is wrong with the first id of a chord that is not a configured
/// sensor, or is the confirming one.
pub open spec fn chord_fault(chord: Seq<usize>, sensors: nat, confirm: usize) -> Option<
    SchemeFault,
>
    decreases chord.len(),
{
    if chord.len() == 0 {
        None
    } else if chord[0] >= sensors {
        Some(SchemeFault::SensorOutOfRange(chord[0]))
    } else if chord[0] == confirm {
        Some(SchemeFault::ConfirmInChord)
    } else {
        chord_fault(chord.drop_first(), sensors, confirm)
    }
}

/// What is wrong with the entry at `place`, given the entries before it:
/// that its command is unknown, else what is wrong with its chord, else that
/// an earlier entry has the same chord.
pub open spec fn entry_fault(
    entries: Seq<(Seq<char>, Seq<usize>)>,
    place: int,
    sensors: nat,
    confirm: usize,
) -> Option<SchemeFault> {
    let (command, chord) = entries[place];
    if command_action(command) is None {
        Some(SchemeFault::UnknownCommand(command))
    } else if chord_fault(chord, sensors, confirm) is Some {
        chord_fault(chord, sensors, confirm)
    } else if exists|earlier: int| 0 <= earlier < place && (#[trigger] entries[earlier]).1 == chord {
        Some(SchemeFault::DuplicateChord(chord))
    } else {
        None
    }
}

/// A chord has a fault exactly where one of its ids is not a configured
/// sensor, or is the confirming one.
pub proof fn lemma_chord_fault(chord: Seq<usize>, sensors: nat, confirm: usize)
    ensures
        chord_fault(chord, sensors, confirm) is Some <==> exists|k: int|
            0 <= k < chord.len() && (#[trigger] chord[k] >= sensors || chord[k] == confirm),
    decreases chord.len(),
{
    if chord.len() > 0 {
        let rest = chord.drop_first();
        lemma_chord_fault(rest, sensors, confirm);
        if chord_fault(chord, sensors, confirm) is Some {
            if chord[0] >= sensors || chord[0] == confirm {
            } else {
                let k = choose|k: int|
                    0 <= k < rest.len() && (#[trigger] rest[k] >= sensors || rest[k] == confirm);
                assert(chord[k + 1] == rest[k]);
            }
        }
        if exists|k: int|
            0 <= k < chord.len() && (#[trigger] chord[k] >= sensors || chord[k] == confirm) {
            let k = choose|k: int|
                0 <= k < chord.len() && (#[trigger] chord[k] >= sensors || chord[k] == confirm);
            if k > 0 {
                assert(rest[k - 1] == chord[k]);
            }
        }
    }
}

/// A scheme has an entry with a fault, and is refused, where one of its
/// chords names a sensor that is not configured, where one names the
/// confirming sensor, and where two of its commands have the same chord.
pub proof fn lemma_scheme_faults(
    entries: Seq<(Seq<char>, Seq<usize>)>,
    sensors: nat,
    confirm: usize,
)
    requires
        ({
            ||| exists|i: int, k: int|
                0 <= i < entries.len() && 0 <= k < entries[i].1.len() && (
                #[trigger] entries[i].1[k] >= sensors || entries[i].1[k] == confirm)
            ||| exists|i: int, j: int|
                #![trigger entries[i], entries[j]]
                0 <= i < j < entries.len() && entries[i].1 == entries[j].1
        }),
    ensures
        exists|i: int|
            0 <= i < entries.len() && #[trigger] entry_fault(entries, i, sensors, confirm) is Some,
{
    if exists|i: int, k: int|
        0 <= i < entries.len() && 0 <= k < entries[i].1.len() && (#[trigger] entries[i].1[k]
            >= sensors || entries[i].1[k] == confirm) {
        let (i, k) = choose|i: int, k: int|
            0 <= i < entries.len() && 0 <= k < entries[i].1.len() && (#[trigger] entries[i].1[k]
                >= sensors || entries[i].1[k] == confirm);
        lemma_chord_fault(entries[i].1, sensors, confirm);
        assert(entry_fault(entries, i, sensors, confirm) is Some);
    } else {
        let (i, j) = choose|i: int, j: int|
            #![trigger entries[i], entries[j]]
            0 <= i < j < entries.len() && entries[i].1 == entries[j].1;
        assert(entry_fault(entries, j, sensors, confirm) is Some);
    }
}

/// The entries of the scheme as the configuration gives them: each command
/// with its chord.
pub open spec fn scheme_entries(config: &Configuration) -> Seq<(Seq<char>, Seq<usize>)> {
    Seq::new(
        config.decoder.scheme@.len(),
        |i: int| (config.decoder.scheme@[i].0@, config.decoder.scheme@[i].1@),
    )
}

/// The fragments of a word as sequences of characters.
pub open spec fn fragments_view(word: Seq<String>) -> Seq<Seq<char>> {
    Seq::new(word.len(), |i: int| word[i]@)
}

/// The words of a line, each as its fragments.
pub open spec fn words_view(line: Seq<Vec<String>>) -> Seq<Seq<Seq<char>>> {
    Seq::new(line.len(), |i: int| fragments_view(line[i]@))
}

/// The fragments of a word, one after the other.
pub open spec fn concat_fragments(fragments: Seq<Seq<char>>) -> Seq<char>
    decreases fragments.len(),
{
    if fragments.len() == 0 {
        Seq::empty()
    } else {
        concat_fragments(fragments.drop_last()) + fragments.last()
    }
}

/// The words, with one space between each two.
pub open spec fn join_words(words: Seq<Seq<Seq<char>>>) -> Seq<char>
    decreases words.len(),
{
    if words.len() == 0 {
        Seq::empty()
    } else if words.len() == 1 {
        concat_fragments(words[0])
    } else {
        join_words(words.drop_last()) + seq![' '] + concat_fragments(words.last())
    }
}

/// The words, with one space after each.
pub open spec fn spaced_words(words: Seq<Seq<Seq<char>>>) -> Seq<char>
    decreases words.len(),
{
    if words.len() == 0 {
        Seq::empty()
    } else {
        spaced_words(words.drop_last()) + concat_fragments(words.last()) + seq![' ']
    }
}

/// Joining words with a last one: each of the others has a space after it.
pub proof fn lemma_join_last(words: Seq<Seq<Seq<char>>>, last: Seq<Seq<char>>)
    ensures
        join_words(words.push(last)) == spaced_words(words) + concat_fragments(last),
    decreases words.len(),
{
    let all = words.push(last);
    assert(all.drop_last() =~= words);
    if words.len() == 0 {
        assert(spaced_words(words) + concat_fragments(last) =~= concat_fragments(last));
    } else {
        assert(words.drop_last().push(words.last()) =~= words);
        lemma_join_last(words.drop_last(), words.last());
        assert(join_words(all) =~= spaced_words(words) + concat_fragments(last));
    }
}

/// A text with `head` in the place of its first character; a text without
/// characters stays as it is.
pub open spec fn with_head(text: Seq<char>, head: Seq<char>) -> Seq<char> {
    if text.len() == 0 {
        text
    } else {
        head + text.drop_first()
    }
}

/// A text with its first character in upper case.
pub open spec fn capitalized(text: Seq<char>) -> Seq<char> {
    if text.len() == 0 {
        text
    } else {
        with_head(text, char_uppercase(text[0]))
    }
}

/// The counter of confirmations after one more: it stops at the largest
/// number that it can hold.
pub open spec fn counted(count: usize) -> usize {
    if count < usize::MAX {
        (count + 1) as usize
    } else {
        count
    }
}

/// The decoder as plain values.
pub struct DecoderModel {
    /// The scheme: each chord with what it does, in the order of chords.
    pub scheme: Seq<(Seq<usize>, InputModel)>,
    /// The dictionary, if there is one: under each key, the ways of writing
    /// it with their frequencies.
    pub dictionary: Option<Map<Seq<char>, Seq<(u64, Seq<char>)>>>,
    /// The sensor that confirms.
    pub confirm: usize,
    /// How many confirmations came since the last other id.
    pub confirm_count: usize,
    /// The ids that came since the last chord was confirmed.
    pub input: Seq<usize>,
    /// The fragments of the word that is being written.
    pub word: Seq<Seq<char>>,
    /// The words that are complete.
    pub line: Seq<Seq<Seq<char>>>,
}

impl DecoderModel {
    /// The chords of the scheme stand in rising order.
    pub open spec fn valid(self) -> bool {
        rising(self.scheme)
    }

    /// A decoder to which no id has come yet.
    pub open spec fn fresh(
        scheme: Seq<(Seq<usize>, InputModel)>,
        dictionary: Option<Map<Seq<char>, Seq<(u64, Seq<char>)>>>,
        confirm: usize,
    ) -> DecoderModel {
        DecoderModel {
            scheme,
            dictionary,
            confirm,
            confirm_count: 0,
            input: Seq::empty(),
            word: Seq::empty(),
            line: Seq::empty(),
        }
    }

    /// The first confirmation of a chord: the chord is looked up and given
    /// up, and what it stands for is done. A fragment that starts the line
    /// starts with an upper-case letter.
    pub open spec fn confirmed(self) -> (DecoderModel, Option<InputEventModel>) {
        let cleared = DecoderModel { input: Seq::empty(), ..self };
        match bound_to(self.scheme, self.input) {
            Some(InputModel::Append(text)) => {
                let fragment = if self.line.len() == 0 && self.word.len() == 0 {
                    capitalized(text)
                } else {
                    text
                };
                (
                    DecoderModel { word: self.word.push(fragment), ..cleared },
                    Some(InputEventModel::Letters(fragment)),
                )
            },
            Some(InputModel::Delete) => (
                DecoderModel {
                    word: if self.word.len() > 0 {
                        self.word.drop_last()
                    } else {
                        self.word
                    },
                    ..cleared
                },
                Some(InputEventModel::DeleteLetter),
            ),
            Some(InputModel::Question) => (cleared, None),
            None => (cleared, Some(InputEventModel::Illegal)),
        }
    }

    /// What one id does to the decoder, and the event that comes of it.
    pub open spec fn step(self, id: usize) -> (DecoderModel, Option<InputEventModel>) {
        if id == self.confirm {
            let next = DecoderModel { confirm_count: counted(self.confirm_count), ..self };
            if self.confirm_count == 0 {
                next.confirmed()
            } else {
                (next, None)
            }
        } else {
            (DecoderModel { confirm_count: 0, input: self.input.push(id), ..self }, None)
        }
    }

    /// The line as it is shown: the complete words and the one that is being
    /// written, with one space between each two.
    pub open spec fn rendered(self) -> Seq<char> {
        join_words(self.line.push(self.word))
    }

    /// What is suggested: what each entry of the scheme does whose chord lies
    /// in the range of the extensions of the pending chord.
    pub open spec fn predicted(self) -> Seq<InputModel> {
        actions_within(self.scheme, extension_range(self.input))
    }
}

/// What the entries do whose chord starts with `prefix`, in the order of
/// `entries`.
pub open spec fn actions_extending(
    entries: Seq<(Seq<usize>, InputModel)>,
    prefix: Seq<usize>,
) -> Seq<InputModel>
    decreases entries.len(),
{
    if entries.len() == 0 {
        Seq::empty()
    } else if prefix.is_prefix_of(entries.last().0) {
        actions_extending(entries.drop_last(), prefix).push(entries.last().1)
    } else {
        actions_extending(entries.drop_last(), prefix)
    }
}

/// Where the pending chord is empty, or its last id is not the largest there
/// is, the range of its extensions holds the chords that start with it and no
/// others.
pub proof fn lemma_range_is_prefix_match(
    entries: Seq<(Seq<usize>, InputModel)>,
    prefix: Seq<usize>,
)
    requires
        prefix.len() == 0 || prefix.last() < usize::MAX,
    ensures
        actions_within(entries, extension_range(prefix)) == actions_extending(entries, prefix),
    decreases entries.len(),
{
    if entries.len() > 0 {
        lemma_range_is_prefix_match(entries.drop_last(), prefix);
        lemma_extension_range(prefix, entries.last().0);
    }
}

/// Where no id is pending, what every entry of the scheme does is suggested,
/// in the order of chords.
pub proof fn lemma_empty_chord_predicts_all(decoder: DecoderModel)
    requires
        decoder.input.len() == 0,
    ensures
        decoder.predicted().len() == decoder.scheme.len(),
        forall|i: int|
            0 <= i < decoder.scheme.len() ==> #[trigger] decoder.predicted()[i]
                == decoder.scheme[i].1,
{
    assert forall|i: int| 0 <= i < decoder.scheme.len() implies extension_range(
        decoder.input,
    ).contains(#[trigger] decoder.scheme[i].0) by {
        lemma_extension_range(decoder.input, decoder.scheme[i].0);
        assert(decoder.input =~= decoder.scheme[i].0.subrange(0, 0));
    }
    scheme::lemma_actions_within_all(decoder.scheme, extension_range(decoder.input));
}

/// The chord decoder.
#[derive(Debug)]
pub struct Decoder {
    scheme: InputScheme,
    dictionary: Option<Dictionary>,
    confirm: usize,
    confirm_count: usize,
    input: Vec<usize>,
    word: Vec<String>,
    line: Vec<Vec<String>>,
}

impl View for Decoder {
    type V = DecoderModel;

    closed spec fn view(&self) -> DecoderModel {
        DecoderModel {
            scheme: self.scheme@,
            dictionary: match self.dictionary {
                Some(dictionary) => Some(dictionary@),
                None => None,
            },
            confirm: self.confirm,
            confirm_count: self.confirm_count,
            input: self.input@,
            word: fragments_view(self.word@),
            line: words_view(self.line@),
        }
    }
}

/// What the command stands for, if it is one.
pub fn parse_command(command: &str) -> (action: Option<Input>)
    ensures
        match action {
            Some(input) => command_action(command@) == Some(input@),
            None => command_action(command@) is None,
        },
{
    if same_text(command, "question") {
        Some(Input::Question)
    } else if same_text(command, "delete") {
        Some(Input::Delete)
    } else if starts_with(command, "append:") {
        proof {
            reveal_strlit("append:");
        }
        let length = command.unicode_len();
        let text = command.substring_char(7, length);
        assert(text@ =~= command@.skip(7));
        Some(Input::Append(text.to_owned()))
    } else {
        None
    }
}

/// What is wrong with a chord, if anything is.
pub fn check_chord(chord: &Vec<usize>, sensors: usize, confirm: usize) -> (fault: Option<
    SchemeError,
>)
    ensures
        match fault {
            Some(error) => chord_fault(chord@, sensors as nat, confirm) == Some(error@),
            None => chord_fault(chord@, sensors as nat, confirm) is None,
        },
{
    let mut i: usize = 0;
    assert(chord@.skip(0) =~= chord@);
    while i < chord.len()
        invariant
            i <= chord@.len(),
            chord_fault(chord@, sensors as nat, confirm) == chord_fault(
                chord@.skip(i as int),
                sensors as nat,
                confirm,
            ),
        decreases chord@.len() - i,
    {
        let id = chord[i];
        if id >= sensors {
            return Some(SchemeError::SensorOutOfRange(id));
        }
        if id == confirm {
            return Some(SchemeError::ConfirmInChord);
        }
        assert(chord@.skip(i as int).drop_first() =~= chord@.skip(i + 1));
        i += 1;
    }
    None
}

/// A copy of a chord.
fn copy_chord(chord: &Vec<usize>) -> (copy: Vec<usize>)
    ensures
        copy@ == chord@,
{
    let mut copy: Vec<usize> = Vec::new();
    let mut i: usize = 0;
    while i < chord.len()
        invariant
            i <= chord@.len(),
            copy@ == chord@.take(i as int),
        decreases chord@.len() - i,
    {
        copy.push(chord[i]);
        assert(chord@.take(i + 1) =~= chord@.take(i as int).push(chord@[i as int]));
        i += 1;
    }
    assert(chord@.take(chord@.len() as int) =~= chord@);
    copy
}

/// A text with `head` in the place of its first character; a text without
/// characters stays as it is.
pub fn replace_first(text: String, head: &str) -> (result: String)
    ensures
        result@ == with_head(text@, head@),
{
    let length = text.as_str().unicode_len();
    if length == 0 {
        return text;
    }
    let mut result = head.to_owned();
    result.append(text.as_str().substring_char(1, length));
    assert(text@.subrange(1, length as int) =~= text@.drop_first());
    result
}

/// A text with its first character in upper case.
fn capitalize(text: String) -> (result: String)
    ensures
        result@ == capitalized(text@),
{
    if text.as_str().unicode_len() == 0 {
        return text;
    }
    let upper = uppercase(text.as_str().get_char(0));
    replace_first(text, upper.as_str())
}

/// Puts the fragments of a word at the end of a text.
fn append_fragments(text: &mut String, word: &Vec<String>)
    ensures
        final(text)@ == old(text)@ + concat_fragments(fragments_view(word@)),
{
    let ghost fragments = fragments_view(word@);
    let mut i: usize = 0;
    assert(old(text)@ + concat_fragments(fragments.take(0)) =~= old(text)@);
    while i < word.len()
        invariant
            i <= word@.len(),
            fragments == fragments_view(word@),
            text@ == old(text)@ + concat_fragments(fragments.take(i as int)),
        decreases word@.len() - i,
    {
        text.append(word[i].as_str());
        proof {
            let seen = fragments.take(i + 1);
            assert(seen.drop_last() =~= fragments.take(i as int));
            assert(seen.last() == word@[i as int]@);
            assert(old(text)@ + concat_fragments(fragments.take(i as int)) + word@[i as int]@
                =~= old(text)@ + concat_fragments(seen));
        }
        i += 1;
    }
    assert(fragments.take(word@.len() as int) =~= fragments);
}

impl Decoder {
    /// The scheme is in order, and the dictionary, if there is one, is sound.
    pub open spec fn wf(&self) -> bool {
        &&& self@.valid()
        &&& self.dictionary_wf()
    }

    /// Whether the dictionary, if there is one, is sound.
    pub closed spec fn dictionary_wf(&self) -> bool {
        match self.dictionary {
            Some(dictionary) => dictionary.wf(),
            None => true,
        }
    }

    /// A decoder for the scheme of the configuration, to which no id has come
    /// yet. The entries of the scheme are taken one after the other, and the
    /// first one with which something is wrong has the scheme refused.
    pub fn new(config: &Configuration, dictionary: Option<Dictionary>) -> (result: Result<
        Decoder,
        SchemeError,
    >)
        requires
            dictionary matches Some(words) ==> words.wf(),
        ensures
            match result {
                Ok(decoder) => {
                    &&& decoder.wf()
                    &&& forall|i: int|
                        0 <= i < scheme_entries(config).len() ==> entry_fault(
                            scheme_entries(config),
                            i,
                            config.arduino.sensors@.len(),
                            config.decoder.confirm,
                        ) is None
                    &&& decoder@ == DecoderModel::fresh(
                        decoder@.scheme,
                        match dictionary {
                            Some(words) => Some(words@),
                            None => None,
                        },
                        config.decoder.confirm,
                    )
                    &&& decoder@.scheme.len() == scheme_entries(config).len()
                    &&& forall|i: int|
                        0 <= i < scheme_entries(config).len() ==> bound_to(
                            decoder@.scheme,
                            (#[trigger] scheme_entries(config)[i]).1,
                        ) == command_action(scheme_entries(config)[i].0)
                },
                Err(error) => exists|i: int|
                    {
                        &&& 0 <= i < scheme_entries(config).len()
                        &&& #[trigger] entry_fault(
                            scheme_entries(config),
                            i,
                            config.arduino.sensors@.len(),
                            config.decoder.confirm,
                        ) == Some(error@)
                        &&& forall|j: int|
                            0 <= j < i ==> entry_fault(
                                scheme_entries(config),
                                j,
                                config.arduino.sensors@.len(),
                                config.decoder.confirm,
                            ) is None
                    },
            },
    {
        let ghost entries = scheme_entries(config);
        let ghost limit = config.arduino.sensors@.len();
        let confirm = config.decoder.confirm;
        let sensors = config.arduino.sensors.len();
        let mut scheme = InputScheme::new();
        let mut i: usize = 0;
        while i < config.decoder.scheme.len()
            invariant
                i <= config.decoder.scheme@.len(),
                entries == scheme_entries(config),
                limit == config.arduino.sensors@.len(),
                sensors == limit,
                confirm == config.decoder.confirm,
                scheme.wf(),
                scheme@.len() == i,
                forall|k: int| 0 <= k < i ==> entry_fault(entries, k, limit, confirm) is None,
                forall|k: int|
                    0 <= k < i ==> bound_to(scheme@, (#[trigger] entries[k]).1) == command_action(
                        entries[k].0,
                    ),
                forall|chord: Seq<usize>| #[trigger]
                    bound_to(scheme@, chord) is Some ==> exists|k: int|
                        0 <= k < i && (#[trigger] entries[k]).1 == chord,
            decreases config.decoder.scheme@.len() - i,
        {
            let command = &config.decoder.scheme[i].0;
            let chord = &config.decoder.scheme[i].1;
            assert(entries[i as int] == (command@, chord@));
            let action = match parse_command(command.as_str()) {
                Some(action) => action,
                None => {
                    return Err(SchemeError::UnknownCommand(command.clone()));
                },
            };
            match check_chord(chord, sensors, confirm) {
                Some(error) => {
                    return Err(error);
                },
                None => {},
            }
            let ghost before = scheme@;
            if !scheme.insert(copy_chord(chord), action) {
                proof {
                    let earlier = choose|k: int| 0 <= k < i && (#[trigger] entries[k]).1 == chord@;
                    assert(entries[earlier].1 == chord@);
                }
                return Err(SchemeError::DuplicateChord(copy_chord(chord)));
            }
            proof {
                if exists|earlier: int| 0 <= earlier < i && (#[trigger] entries[earlier]).1 == chord@ {
                    let earlier = choose|k: int| 0 <= k < i && (#[trigger] entries[k]).1 == chord@;
                    assert(entry_fault(entries, earlier, limit, confirm) is None);
                    assert(command_action(entries[earlier].0) is Some);
                    assert(bound_to(before, entries[earlier].1) is Some);
                }
                assert(entry_fault(entries, i as int, limit, confirm) is None);
                assert forall|other: Seq<usize>| #[trigger]
                    bound_to(scheme@, other) is Some implies exists|k: int|
                    0 <= k < i + 1 && (#[trigger] entries[k]).1 == other by {
                    if other != chord@ {
                        let k = choose|k: int| 0 <= k < i && (#[trigger] entries[k]).1 == other;
                        assert(entries[k].1 == other);
                    }
                }
                assert forall|k: int| 0 <= k < i + 1 implies bound_to(
                    scheme@,
                    (#[trigger] entries[k]).1,
                ) == command_action(entries[k].0) by {
                    if k < i && entries[k].1 == chord@ {
                        assert(entry_fault(entries, k, limit, confirm) is None);
                        assert(command_action(entries[k].0) is Some);
                        assert(bound_to(before, entries[k].1) is Some);
                    }
                }
            }
            i += 1;
        }
        let decoder = Decoder {
            scheme,
            dictionary,
            confirm,
            confirm_count: 0,
            input: Vec::new(),
            word: Vec::new(),
            line: Vec::new(),
        };
        proof {
            assert(decoder@.word =~= Seq::<Seq<char>>::empty());
            assert(decoder@.line =~= Seq::<Seq<Seq<char>>>::empty());
        }
        Ok(decoder)
    }

    /// The dictionary, if the decoder has one.
    pub fn dictionary(&self) -> (dictionary: Option<&Dictionary>)
        requires
            self.wf(),
        ensures
            match dictionary {
                Some(words) => words.wf() && self@.dictionary == Some(words@),
                None => self@.dictionary is None,
            },
    {
        match &self.dictionary {
            Some(words) => Some(words),
            None => None,
        }
    }

    /// The line as it is shown: the complete words and the one that is being
    /// written, with one space between each two.
    pub fn line(&self) -> (text: String)
        ensures
            text@ == self@.rendered(),
    {
        let ghost words = words_view(self.line@);
        let mut text = String::new();
        let mut i: usize = 0;
        assert(words.take(0) =~= Seq::<Seq<Seq<char>>>::empty());
        while i < self.line.len()
            invariant
                i <= self.line@.len(),
                words == words_view(self.line@),
                text@ == spaced_words(words.take(i as int)),
            decreases self.line@.len() - i,
        {
            append_fragments(&mut text, &self.line[i]);
            text.append(" ");
            proof {
                reveal_strlit(" ");
                assert(" "@ =~= seq![' ']);
                let seen = words.take(i + 1);
                assert(seen.drop_last() =~= words.take(i as int));
                assert(seen.last() == fragments_view(self.line@[i as int]@));
            }
            i += 1;
        }
        append_fragments(&mut text, &self.word);
        proof {
            assert(words.take(self.line@.len() as int) =~= words);
            lemma_join_last(words, fragments_view(self.word@));
        }
        text
    }

    /// Takes one id. The confirming id confirms the pending chord, if it is
    /// the first in a row; any other id is added to the pending chord.
    pub fn process_input(&mut self, input: usize) -> (event: Option<InputEvent>)
        requires
            old(self).wf(),
        ensures
            final(self).wf(),
            final(self)@ == old(self)@.step(input).0,
            match event {
                Some(event) => old(self)@.step(input).1 == Some(event@),
                None => old(self)@.step(input).1 is None,
            },
    {
        if input != self.confirm {
            self.confirm_count = 0;
            self.input.push(input);
            return None;
        }
        let first = self.confirm_count == 0;
        if self.confirm_count < usize::MAX {
            self.confirm_count += 1;
        }
        if !first {
            return None;
        }
        let found = match self.scheme.get(&self.input) {
            Some(action) => Some(action.clone()),
            None => None,
        };
        self.input.clear();
        match found {
            Some(Input::Append(letters)) => {
                let fragment = if self.line.len() == 0 && self.word.len() == 0 {
                    capitalize(letters)
                } else {
                    letters
                };
                let ghost before = fragments_view(self.word@);
                self.word.push(fragment.clone());
                assert(fragments_view(self.word@) =~= before.push(fragment@));
                Some(InputEvent::Letters(fragment))
            },
            Some(Input::Delete) => {
                let ghost before = fragments_view(self.word@);
                self.word.pop();
                assert(before.len() > 0 ==> fragments_view(self.word@) =~= before.drop_last());
                Some(InputEvent::DeleteLetter)
            },
            Some(Input::Question) => None,
            None => Some(InputEvent::Illegal),
        }
    }

    /// What the pending chord may become: what each entry of the scheme does
    /// whose chord lies in the range of the extensions of the pending chord,
    /// in the order of chords.
    pub fn predict_input(&self) -> (actions: Vec<&Input>)
        requires
            self.wf(),
        ensures
            actions@.len() == self@.predicted().len(),
            forall|i: int|
                0 <= i < actions@.len() ==> (#[trigger] actions@[i])@ == self@.predicted()[i],
    {
        let length = self.input.len();
        if length > 0 && self.input[length - 1] < usize::MAX {
            let mut upper = copy_chord(&self.input);
            let last = upper[length - 1];
            upper.set(length - 1, last + 1);
            assert(upper@ =~= chord::successor(self.input@));
            self.scheme.actions_from(&self.input, Some(&upper))
        } else {
            self.scheme.actions_from(&self.input, None)
        }
    }
}

} // verus!
