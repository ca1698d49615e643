//! The virtual microphone: names, descriptions and module arguments for the audio server.

use vstd::prelude::*;

use crate::text::chars_of;
use crate::time::Instant;

verus! {

/// The source's name when none is given.
pub const DEFAULT_SOURCE_NAME: &'static str = "iosmic";

/// The source's description when none is given.
pub const DEFAULT_DESCRIPTION: &'static str = "iOS Microphone";

/// The module that makes the backing sink.
pub const SINK_MODULE: &'static str = "module-null-sink";

/// The module that makes the source.
pub const SOURCE_MODULE: &'static str = "module-remap-source";

/// A name or a description that the audio server must not be given.
#[derive(Debug)]
pub struct SourceError {
    message: String,
}

impl SourceError {
    /// The reason in words.
    pub closed spec fn view(self) -> Seq<char> {
        self.message@
    }

    pub fn message(&self) -> (message: &str)
        ensures
            message@ == self@,
    {
        self.message.as_str()
    }
}

/// The characters that names are made of.
pub open spec fn is_name_char(character: char) -> bool {
    ||| 'a' <= character <= 'z'
    ||| 'A' <= character <= 'Z'
    ||| '0' <= character <= '9'
    ||| character == '.'
    ||| character == '_'
    ||| character == '-'
}

/// A name the audio server takes without quoting.
pub open spec fn is_name(name: Seq<char>) -> bool {
    name.len() > 0 && forall|i: int| 0 <= i < name.len() ==> is_name_char(#[trigger] name[i])
}

/// The control characters of Unicode.
pub open spec fn is_control_char(character: char) -> bool {
    character <= '\u{1f}' || '\u{7f}' <= character <= '\u{9f}'
}

/// A text fit to be shown.
pub open spec fn is_description(description: Seq<char>) -> bool {
    description.len() > 0 && forall|i: int|
        0 <= i < description.len() ==> !is_control_char(#[trigger] description[i])
}

pub open spec fn invalid_name_text(kind: Seq<char>) -> Seq<char> {
    kind + " name may only contain ASCII letters, numbers, '.', '_', and '-'"@
}

pub open spec fn invalid_description_text() -> Seq<char> {
    "source description must be non-empty and cannot contain control characters"@
}

/// Checks a name; `kind` says what is named.
pub fn validate_name(kind: &str, name: &str) -> (verdict: Result<(), SourceError>)
    ensures
        match verdict {
            Ok(()) => is_name(name@),
            Err(error) => !is_name(name@) && error@ == invalid_name_text(kind@),
        },
{
    let characters: Vec<char> = chars_of(name);
    let mut valid: bool = characters.len() > 0;
    let mut next: usize = 0;
    while next < characters.len()
        invariant
            next <= characters@.len(),
            valid == (characters@.len() > 0 && forall|i: int|
                0 <= i < next ==> is_name_char(#[trigger] characters@[i])),
        decreases characters@.len() - next,
    {
        let character: char = characters[next];
        valid = valid && (('a' <= character && character <= 'z') || ('A' <= character && character
            <= 'Z') || ('0' <= character && character <= '9') || character == '.' || character
            == '_' || character == '-');
        next = next + 1;
    }
    if valid {
        return Ok(());
    }
    let mut message: String = kind.to_owned();
    message.append(" name may only contain ASCII letters, numbers, '.', '_', and '-'");
    Err(SourceError { message })
}

/// Checks a description.
pub fn validate_description(description: &str) -> (verdict: Result<(), SourceError>)
    ensures
        match verdict {
            Ok(()) => is_description(description@),
            Err(error) => !is_description(description@) && error@ == invalid_description_text(),
        },
{
    let characters: Vec<char> = chars_of(description);
    let mut valid: bool = characters.len() > 0;
    let mut next: usize = 0;
    while next < characters.len()
        invariant
            next <= characters@.len(),
            valid == (characters@.len() > 0 && forall|i: int|
                0 <= i < next ==> !is_control_char(#[trigger] characters@[i])),
        decreases characters@.len() - next,
    {
        let character: char = characters[next];
        valid = valid && !(character <= '\u{1f}' || ('\u{7f}' <= character && character
            <= '\u{9f}'));
        next = next + 1;
    }
    if valid {
        return Ok(());
    }
    Err(
        SourceError {
            message:
                "source description must be non-empty and cannot contain control characters".to_owned(),
        },
    )
}

/// A text with a backslash before each backslash and each quote.
pub open spec fn escaped(text: Seq<char>, quote: char) -> Seq<char>
    decreases text.len(),
{
    if text.len() == 0 {
        Seq::empty()
    } else if text.last() == '\\' || text.last() == quote {
        escaped(text.drop_last(), quote).push('\\').push(text.last())
    } else {
        escaped(text.drop_last(), quote).push(text.last())
    }
}

/// What a parser of quoted text reads up to the closing quote, and what is left behind it. A
/// backslash stands for the character after it.
pub open spec fn read_quoted(text: Seq<char>, quote: char) -> Option<(Seq<char>, Seq<char>)>
    decreases text.len(),
{
    if text.len() == 0 {
        None
    } else if text[0] == quote {
        Some((Seq::empty(), text.skip(1)))
    } else if text[0] == '\\' {
        if text.len() == 1 {
            None
        } else {
            match read_quoted(text.skip(2), quote) {
                Some((inner, rest)) => Some((seq![text[1]] + inner, rest)),
                None => None,
            }
        }
    } else {
        match read_quoted(text.skip(1), quote) {
            Some((inner, rest)) => Some((seq![text[0]] + inner, rest)),
            None => None,
        }
    }
}

/// Quoted text that goes on behind an escaped part is read as that part and what follows.
proof fn lemma_read_escaped(text: Seq<char>, quote: char, after: Seq<char>)
    requires
        quote != '\\',
    ensures
        read_quoted(escaped(text, quote) + after, quote) == match read_quoted(after, quote) {
            Some((inner, rest)) => Some((text + inner, rest)),
            None => None,
        },
    decreases text.len(),
{
    if text.len() == 0 {
        assert(escaped(text, quote) + after =~= after);
        if read_quoted(after, quote) is Some {
            let (inner, rest) = read_quoted(after, quote)->0;
            assert(text + inner =~= inner);
        }
    } else {
        let shorter = text.drop_last();
        let last = text.last();
        if last == '\\' || last == quote {
            let tail = seq!['\\', last] + after;
            lemma_read_escaped(shorter, quote, tail);
            assert(escaped(text, quote) + after =~= escaped(shorter, quote) + tail);
            assert(tail.skip(2) =~= after);
        } else {
            let tail = seq![last] + after;
            lemma_read_escaped(shorter, quote, tail);
            assert(escaped(text, quote) + after =~= escaped(shorter, quote) + tail);
            assert(tail.skip(1) =~= after);
        }
        if read_quoted(after, quote) is Some {
            let (inner, rest) = read_quoted(after, quote)->0;
            assert(shorter + (seq![last] + inner) =~= text + inner);
        }
    }
}

/// Whatever a text holds, between quotes and escaped it is read back as it was.
pub proof fn escaping_is_read_back(text: Seq<char>, quote: char, rest: Seq<char>)
    requires
        quote != '\\',
    ensures
        read_quoted(escaped(text, quote) + seq![quote] + rest, quote) == Some((text, rest)),
{
    let after = seq![quote] + rest;
    lemma_read_escaped(text, quote, after);
    assert(after.skip(1) =~= rest);
    assert(text + Seq::<char>::empty() =~= text);
    assert(escaped(text, quote) + seq![quote] + rest =~= escaped(text, quote) + after);
}

/// The property list that gives a device its description.
pub open spec fn property_list(description: Seq<char>) -> Seq<char> {
    "device.description=\""@ + escaped(description, '"') + "\""@
}

/// The property list, quoted as a module's argument.
pub open spec fn properties_text(description: Seq<char>) -> Seq<char> {
    "'"@ + escaped(property_list(description), '\'') + "'"@
}

/// Both parsers that the argument goes through give the description back: the module's parser
/// reads the property list between single quotes, and the list's parser reads the description
/// between double quotes.
pub proof fn descriptions_reach_the_server_unchanged(description: Seq<char>, rest: Seq<char>)
    ensures
        read_quoted((properties_text(description) + rest).skip(1), '\'') == Some(
            (property_list(description), rest),
        ),
        read_quoted(
            property_list(description).skip("device.description=\""@.len() as int),
            '"',
        ) == Some((description, Seq::<char>::empty())),
{
    reveal_strlit("'");
    reveal_strlit("\"");
    let list = property_list(description);
    escaping_is_read_back(list, '\'', rest);
    assert((properties_text(description) + rest).skip(1) =~= escaped(list, '\'') + seq!['\'']
        + rest);
    escaping_is_read_back(description, '"', Seq::empty());
    assert(list.skip("device.description=\""@.len() as int) =~= escaped(description, '"') + seq!['"']
        + Seq::<char>::empty());
}

fn push_escaped(text: &mut String, source: &str, quote: char)
    ensures
        final(text)@ == old(text)@ + escaped(source@, quote),
{
    let ghost before = text@;
    let characters: Vec<char> = chars_of(source);
    let mut next: usize = 0;
    assert(text@ =~= before + escaped(characters@.take(0), quote));
    while next < characters.len()
        invariant
            next <= characters@.len(),
            text@ == before + escaped(characters@.take(next as int), quote),
        decreases characters@.len() - next,
    {
        let character: char = characters[next];
        let ghost taken = characters@.take(next + 1);
        assert(taken.drop_last() =~= characters@.take(next as int));
        if character == '\\' || character == quote {
            text.push('\\');
        }
        text.push(character);
        next = next + 1;
        assert(text@ =~= before + escaped(taken, quote));
    }
    assert(characters@.take(next as int) =~= characters@);
}

/// The module argument that gives a device its description.
pub fn module_properties(description: &str) -> (properties: String)
    ensures
        properties@ == properties_text(description@),
{
    let mut list: String = "device.description=\"".to_owned();
    push_escaped(&mut list, description, '"');
    list.append("\"");
    let mut properties: String = "'".to_owned();
    push_escaped(&mut properties, list.as_str(), '\'');
    properties.append("'");
    properties
}

/// All that has to be told to the audio server to set a virtual source up.
#[derive(Debug)]
pub struct SourcePlan {
    pub source_name: String,
    pub sink_name: String,
    pub description: String,
    /// The argument of [`SINK_MODULE`].
    pub sink_argument: String,
    /// The argument of [`SOURCE_MODULE`].
    pub source_argument: String,
}

/// The sink's name: the one given, or the source's with a suffix.
pub open spec fn sink_name_of(source_name: Seq<char>, sink_name: Option<&str>) -> Seq<char> {
    match sink_name {
        Some(name) => name@,
        None => source_name + "_sink"@,
    }
}

/// The description: the one given, or the default.
pub open spec fn description_of(description: Option<&str>) -> Seq<char> {
    match description {
        Some(description) => description@,
        None => DEFAULT_DESCRIPTION@,
    }
}

pub open spec fn sink_argument_text(sink_name: Seq<char>, description: Seq<char>) -> Seq<char> {
    "sink_name="@ + sink_name + " sink_properties="@ + properties_text(description + " Output"@)
}

pub open spec fn source_argument_text(
    source_name: Seq<char>,
    sink_name: Seq<char>,
    description: Seq<char>,
) -> Seq<char> {
    "master="@ + sink_name + ".monitor source_name="@ + source_name + " source_properties="@
        + properties_text(description)
}

impl SourcePlan {
    /// The names and the description are valid, and the modules' arguments spell them out.
    pub open spec fn is_spelled_out(self) -> bool {
        &&& is_name(self.source_name@)
        &&& is_name(self.sink_name@)
        &&& is_description(self.description@)
        &&& self.sink_argument@ == sink_argument_text(self.sink_name@, self.description@)
        &&& self.source_argument@ == source_argument_text(
            self.source_name@,
            self.sink_name@,
            self.description@,
        )
    }
}

/// Checks the names and the description of a virtual source, and spells its modules' arguments
/// out.
pub fn plan_source(
    source_name: &str,
    sink_name: Option<&str>,
    source_description: Option<&str>,
) -> (plan: Result<SourcePlan, SourceError>)
    ensures
        ({
            let sink = sink_name_of(source_name@, sink_name);
            let description = description_of(source_description);
            match plan {
                Ok(plan) => {
                    &&& plan.is_spelled_out()
                    &&& plan.sink_name@ == match sink_name {
                        Some(name) => name@,
                        None => source_name@ + "_sink"@,
                    }
                    &&& plan.description@ == match source_description {
                        Some(text) => text@,
                        None => "iOS Microphone"@,
                    }
                    &&& is_name(source_name@)
                    &&& is_description(description)
                    &&& is_name(sink)
                    &&& plan.source_name@ == source_name@
                    &&& plan.sink_name@ == sink
                    &&& plan.description@ == description
                    &&& plan.sink_argument@ == sink_argument_text(sink, description)
                    &&& plan.source_argument@ == source_argument_text(
                        source_name@,
                        sink,
                        description,
                    )
                },
                Err(error) => if !is_name(source_name@) {
                    error@ == invalid_name_text("source"@)
                } else if !is_description(description) {
                    error@ == invalid_description_text()
                } else {
                    !is_name(sink) && error@ == invalid_name_text("sink"@)
                },
            }
        }),
{
    match validate_name("source", source_name) {
        Err(error) => {
            return Err(error);
        },
        Ok(()) => {},
    }
    let description: &str = match source_description {
        Some(description) => description,
        None => DEFAULT_DESCRIPTION,
    };
    match validate_description(description) {
        Err(error) => {
            return Err(error);
        },
        Ok(()) => {},
    }
    let sink: String = match sink_name {
        Some(name) => name.to_owned(),
        None => {
            let mut name: String = source_name.to_owned();
            name.append("_sink");
            name
        },
    };
    match validate_name("sink", sink.as_str()) {
        Err(error) => {
            return Err(error);
        },
        Ok(()) => {},
    }
    let mut sink_description: String = description.to_owned();
    sink_description.append(" Output");
    let mut sink_argument: String = "sink_name=".to_owned();
    sink_argument.append(sink.as_str());
    sink_argument.append(" sink_properties=");
    let sink_properties: String = module_properties(sink_description.as_str());
    sink_argument.append(sink_properties.as_str());
    let mut source_argument: String = "master=".to_owned();
    source_argument.append(sink.as_str());
    source_argument.append(".monitor source_name=");
    source_argument.append(source_name);
    source_argument.append(" source_properties=");
    let source_properties: String = module_properties(description);
    source_argument.append(source_properties.as_str());
    Ok(
        SourcePlan {
            source_name: source_name.to_owned(),
            sink_name: sink,
            description: description.to_owned(),
            sink_argument,
            source_argument,
        },
    )
}

/// What a reader of words reads of a text: all up to the first space.
pub open spec fn first_word(text: Seq<char>) -> Seq<char>
    decreases text.len(),
{
    if text.len() == 0 || text[0] == ' ' {
        Seq::empty()
    } else {
        seq![text[0]] + first_word(text.skip(1))
    }
}

/// What follows the first space of a text.
pub open spec fn after_first_word(text: Seq<char>) -> Seq<char> {
    text.skip(first_word(text).len() as int + 1)
}

proof fn lemma_first_word(word: Seq<char>, rest: Seq<char>)
    requires
        forall|i: int| 0 <= i < word.len() ==> #[trigger] word[i] != ' ',
    ensures
        first_word(word + seq![' '] + rest) == word,
        after_first_word(word + seq![' '] + rest) == rest,
    decreases word.len(),
{
    let text = word + seq![' '] + rest;
    if word.len() == 0 {
        assert(text[0] == ' ');
        assert(first_word(text) =~= word);
        assert(text.skip(1) =~= rest);
    } else {
        let shorter = word.skip(1);
        assert forall|i: int| 0 <= i < shorter.len() implies #[trigger] shorter[i] != ' ' by {
            assert(shorter[i] == word[i + 1]);
        }
        lemma_first_word(shorter, rest);
        assert(text.skip(1) =~= shorter + seq![' '] + rest);
        assert(text[0] == word[0]);
        assert(first_word(text) =~= word);
        assert(text.skip(word.len() as int + 1) =~= rest);
    }
}

/// The text sets a property list with this description, and nothing else: between single quotes
/// stands a list that gives the description between double quotes.
pub open spec fn describes(text: Seq<char>, description: Seq<char>) -> bool {
    &&& text.len() > 0
    &&& text[0] == '\''
    &&& read_quoted(text.skip(1), '\'') matches Some((list, rest))
    &&& rest == Seq::<char>::empty()
    &&& "device.description=\""@.is_prefix_of(list)
    &&& read_quoted(list.skip("device.description=\""@.len() as int), '"') == Some(
        (description, Seq::<char>::empty()),
    )
}

proof fn lemma_describes(description: Seq<char>)
    ensures
        describes(properties_text(description), description),
{
    reveal_strlit("'");
    let text = properties_text(description);
    descriptions_reach_the_server_unchanged(description, Seq::empty());
    assert(text + Seq::<char>::empty() =~= text);
    assert("device.description=\""@.is_prefix_of(property_list(description)));
}

/// The sink that is made is the one that the source reads from, under the names that were chosen.
/// Read word by word, the sink's argument names the plan's sink and then describes it as the plan
/// does, as an output; the source's argument names the monitor of that same sink as the place to
/// read from, then the plan's source, and describes it as the plan does.
pub proof fn the_source_reads_from_the_sink_that_is_made(plan: SourcePlan)
    requires
        plan.is_spelled_out(),
    ensures
        first_word(plan.sink_argument@) == "sink_name="@ + plan.sink_name@,
        "sink_properties="@.is_prefix_of(after_first_word(plan.sink_argument@)),
        describes(
            after_first_word(plan.sink_argument@).skip("sink_properties="@.len() as int),
            plan.description@ + " Output"@,
        ),
        first_word(plan.source_argument@) == "master="@ + plan.sink_name@ + ".monitor"@,
        first_word(after_first_word(plan.source_argument@)) == "source_name="@ + plan.source_name@,
        "source_properties="@.is_prefix_of(
            after_first_word(after_first_word(plan.source_argument@)),
        ),
        describes(
            after_first_word(after_first_word(plan.source_argument@)).skip(
                "source_properties="@.len() as int,
            ),
            plan.description@,
        ),
{
    reveal_strlit("sink_name=");
    reveal_strlit(" sink_properties=");
    reveal_strlit("sink_properties=");
    reveal_strlit("master=");
    reveal_strlit(".monitor source_name=");
    reveal_strlit(".monitor");
    reveal_strlit("source_name=");
    reveal_strlit(" source_properties=");
    reveal_strlit("source_properties=");
    let sink = plan.sink_name@;
    let source = plan.source_name@;
    let output = properties_text(plan.description@ + " Output"@);
    let input = properties_text(plan.description@);
    lemma_describes(plan.description@ + " Output"@);
    lemma_describes(plan.description@);

    let made = "sink_name="@ + sink;
    let made_rest = "sink_properties="@ + output;
    names_hold_no_space("sink_name="@, sink, Seq::empty());
    assert(made + Seq::<char>::empty() =~= made);
    assert(" sink_properties="@ =~= seq![' '] + "sink_properties="@);
    assert(plan.sink_argument@ =~= made + seq![' '] + made_rest);
    lemma_first_word(made, made_rest);
    assert(made_rest.skip("sink_properties="@.len() as int) =~= output);

    let read = "master="@ + sink + ".monitor"@;
    let named = "source_name="@ + source;
    let described = "source_properties="@ + input;
    let read_rest = named + seq![' '] + described;
    names_hold_no_space("master="@, sink, ".monitor"@);
    names_hold_no_space("source_name="@, source, Seq::empty());
    assert(named + Seq::<char>::empty() =~= named);
    assert(".monitor source_name="@ =~= ".monitor"@ + seq![' '] + "source_name="@);
    assert(" source_properties="@ =~= seq![' '] + "source_properties="@);
    assert(plan.source_argument@ =~= read + seq![' '] + read_rest);
    lemma_first_word(read, read_rest);
    lemma_first_word(named, described);
    assert(described.skip("source_properties="@.len() as int) =~= input);
}

proof fn names_hold_no_space(before: Seq<char>, name: Seq<char>, after: Seq<char>)
    requires
        is_name(name),
        forall|i: int| 0 <= i < before.len() ==> #[trigger] before[i] != ' ',
        forall|i: int| 0 <= i < after.len() ==> #[trigger] after[i] != ' ',
    ensures
        forall|i: int|
            0 <= i < (before + name + after).len() ==> #[trigger] (before + name + after)[i] != ' ',
{
    let text = before + name + after;
    assert forall|i: int| 0 <= i < text.len() implies #[trigger] text[i] != ' ' by {
        if i < before.len() {
            assert(text[i] == before[i]);
        } else if i < before.len() + name.len() {
            assert(text[i] == name[i - before.len()]);
            assert(is_name_char(name[i - before.len()]));
        } else {
            assert(text[i] == after[i - before.len() - name.len()]);
        }
    }
}

/// Names hold letters and digits of ASCII, and the three marks, and nothing that could end them or
/// be taken for something else; every such name of at least one character is valid.
pub proof fn names_hold_letters_digits_and_marks(name: Seq<char>)
    ensures
        is_name(name) <==> name.len() > 0 && forall|i: int|
            0 <= i < name.len() ==> {
                let code = #[trigger] name[i] as int;
                ||| 0x61 <= code <= 0x7a
                ||| 0x41 <= code <= 0x5a
                ||| 0x30 <= code <= 0x39
                ||| 0x2d <= code <= 0x2e
                ||| code == 0x5f
            },
{
    assert forall|i: int| 0 <= i < name.len() implies is_name_char(#[trigger] name[i]) == ({
        let code = name[i] as int;
        ||| 0x61 <= code <= 0x7a
        ||| 0x41 <= code <= 0x5a
        ||| 0x30 <= code <= 0x39
        ||| 0x2d <= code <= 0x2e
        ||| code == 0x5f
    }) by {}
}

/// A description may hold everything but the control characters, and is not empty.
pub proof fn descriptions_hold_no_control_characters(description: Seq<char>)
    ensures
        is_description(description) <==> description.len() > 0 && forall|i: int|
            0 <= i < description.len() ==> {
                let code = #[trigger] description[i] as int;
                0x20 <= code < 0x7f || code > 0x9f
            },
{
    assert forall|i: int| 0 <= i < description.len() implies is_control_char(
        #[trigger] description[i],
    ) == ({
        let code = description[i] as int;
        !(0x20 <= code < 0x7f || code > 0x9f)
    }) by {}
}

/// The names and the description of a plan are the ones that were given; without a sink's name it is
/// the source's with a suffix, which differs from it.
pub proof fn chosen_names_are_used(source_name: Seq<char>, sink_name: Option<&str>)
    ensures
        sink_name matches Some(name) ==> sink_name_of(source_name, sink_name) == name@,
        sink_name is None ==> source_name.is_prefix_of(sink_name_of(source_name, sink_name))
            && sink_name_of(source_name, sink_name).skip(source_name.len() as int) == "_sink"@
            && sink_name_of(source_name, sink_name) != source_name,
        forall|description: &str| #[trigger]
            description_of(Some(description)) == description@,
        description_of(None) == "iOS Microphone"@,
{
    reveal_strlit("_sink");
    let sink = source_name + "_sink"@;
    assert(source_name.is_prefix_of(sink));
    assert(sink.skip(source_name.len() as int) =~= "_sink"@);
}

/// How the connection to the audio server stands.
#[derive(Clone, Copy, Debug, PartialEq, Eq, Structural)]
pub enum ServerState {
    Pending,
    Ready,
    Failed,
    Terminated,
}

/// What to do while an answer of the audio server is awaited.
#[derive(Clone, Copy, Debug, PartialEq, Eq, Structural)]
pub enum ServerWait {
    Done,
    Failed,
    TimedOut,
    /// Run the server's main loop once and ask again.
    Iterate,
}

/// A lost connection is seen before the deadline.
pub open spec fn unanswered(state: ServerState, now: Instant, deadline: Instant) -> ServerWait {
    if state == ServerState::Failed || state == ServerState::Terminated {
        ServerWait::Failed
    } else if now.nanos >= deadline.nanos {
        ServerWait::TimedOut
    } else {
        ServerWait::Iterate
    }
}

/// Waiting for the connection itself.
pub fn wait_for_context(state: ServerState, now: Instant, deadline: Instant) -> (wait: ServerWait)
    ensures
        wait == if state == ServerState::Ready {
            ServerWait::Done
        } else {
            unanswered(state, now, deadline)
        },
{
    wait_for_result(state == ServerState::Ready, state, now, deadline)
}

/// Waiting for the answer to a request; an answer that is there counts, whatever became of the
/// connection.
pub fn wait_for_result(
    answered: bool,
    state: ServerState,
    now: Instant,
    deadline: Instant,
) -> (wait: ServerWait)
    ensures
        wait == if answered {
            ServerWait::Done
        } else {
            unanswered(state, now, deadline)
        },
{
    if answered {
        return ServerWait::Done;
    }
    match state {
        ServerState::Failed | ServerState::Terminated => ServerWait::Failed,
        ServerState::Pending | ServerState::Ready => if now.nanos >= deadline.nanos {
            ServerWait::TimedOut
        } else {
            ServerWait::Iterate
        },
    }
}

/// A default description and a default sink name never stand in the way of a valid source name.
pub proof fn defaults_are_valid(source_name: Seq<char>)
    requires
        is_name(source_name),
    ensures
        is_description(description_of(None)),
        is_name(sink_name_of(source_name, None)),
{
    reveal_strlit("iOS Microphone");
    reveal_strlit("_sink");
    let sink = source_name + "_sink"@;
    assert forall|i: int| 0 <= i < sink.len() implies is_name_char(#[trigger] sink[i]) by {
        if i < source_name.len() {
            assert(sink[i] == source_name[i]);
        } else {
            assert(sink[i] == "_sink"@[i - source_name.len()]);
        }
    }
}

/// The modules that were loaded into the audio server and have to be unloaded again.
#[derive(Clone, Copy, Debug, PartialEq, Eq, Structural)]
pub struct LoadedModules {
    pub source: Option<u32>,
    pub sink: Option<u32>,
}

/// What to do after a request to load a module was answered.
#[derive(Clone, Copy, Debug, PartialEq, Eq, Structural)]
pub enum LoadStep {
    /// Load the source that reads from the sink.
    LoadSource,
    /// The source can be used.
    Ready,
    /// Give up; everything that was loaded has been named for unloading.
    GiveUp { unload: Option<u32> },
}

impl LoadedModules {
    /// The modules in the order in which they are unloaded: what reads from the other goes first.
    pub open spec fn unload_order(self) -> Seq<u32> {
        let source = match self.source {
            Some(module) => seq![module],
            None => Seq::empty(),
        };
        let sink = match self.sink {
            Some(module) => seq![module],
            None => Seq::empty(),
        };
        source + sink
    }

    /// Without the sink there is nothing to read from.
    pub open spec fn after_sink(self, module: Option<u32>) -> (Self, LoadStep) {
        (
            LoadedModules { sink: module, ..self },
            if module is Some {
                LoadStep::LoadSource
            } else {
                LoadStep::GiveUp { unload: None }
            },
        )
    }

    /// Without the source the sink is of no use.
    pub open spec fn after_source(self, module: Option<u32>) -> (Self, LoadStep) {
        match module {
            Some(_) => (LoadedModules { source: module, ..self }, LoadStep::Ready),
            None => (
                LoadedModules { sink: None, ..self },
                LoadStep::GiveUp { unload: self.sink },
            ),
        }
    }

    /// Nothing is loaded.
    pub fn none() -> (modules: Self)
        ensures
            modules == (LoadedModules { source: None, sink: None }),
    {
        LoadedModules { source: None, sink: None }
    }

    /// Takes in the answer to the request to load the sink.
    pub fn on_sink(&mut self, module: Option<u32>) -> (step: LoadStep)
        ensures
            (*final(self), step) == old(self).after_sink(module),
    {
        self.sink = module;
        match module {
            Some(_) => LoadStep::LoadSource,
            None => LoadStep::GiveUp { unload: None },
        }
    }

    /// Takes in the answer to the request to load the source.
    pub fn on_source(&mut self, module: Option<u32>) -> (step: LoadStep)
        ensures
            (*final(self), step) == old(self).after_source(module),
    {
        match module {
            Some(_) => {
                self.source = module;
                LoadStep::Ready
            },
            None => {
                let unload = self.sink.take();
                LoadStep::GiveUp { unload }
            },
        }
    }
}

/// Whatever the server answers, each module that was loaded is named for unloading exactly once:
/// at once when the source is refused, and later, the source before the sink, when it is not.
pub proof fn nothing_stays_loaded(sink: u32, answer: Option<u32>)
    ensures
        ({
            let nothing = LoadedModules { source: None, sink: None };
            let (first, load) = nothing.after_sink(Some(sink));
            let (second, step) = first.after_source(answer);
            &&& nothing.after_sink(None).0.unload_order() == Seq::<u32>::empty()
            &&& load == LoadStep::LoadSource
            &&& match answer {
                Some(source) => step == LoadStep::Ready && second.unload_order() == seq![
                    source,
                    sink,
                ],
                None => step == (LoadStep::GiveUp { unload: Some(sink) })
                    && second.unload_order() == Seq::<u32>::empty(),
            }
        }),
{
    let nothing = LoadedModules { source: None, sink: None };
    let second = nothing.after_sink(Some(sink)).0.after_source(answer).0;
    assert(nothing.after_sink(None).0.unload_order() =~= Seq::<u32>::empty());
    match answer {
        Some(source) => {
            assert(second.unload_order() =~= seq![source, sink]);
        },
        None => {
            assert(second.unload_order() =~= Seq::<u32>::empty());
        },
    }
}

/// What a variable of the environment is to become.
#[derive(Debug)]
pub enum VariableStep {
    Assign(String),
    Remove,
}

impl View for VariableStep {
    type V = Option<Seq<char>>;

    /// The value of the variable after the step.
    open spec fn view(&self) -> Option<Seq<char>> {
        match self {
            VariableStep::Assign(value) => Some(value@),
            VariableStep::Remove => None,
        }
    }
}

/// What a module stands for.
#[derive(Clone, Copy, Debug, PartialEq, Eq, Structural)]
pub enum ModuleKind {
    Source,
    Sink,
}

/// One step of taking a source down. A step that fails does not keep the next ones from being
/// taken.
#[derive(Debug)]
pub enum CleanupStep {
    /// Ask the server to unload a module.
    Unload { kind: ModuleKind, module: u32 },
    /// Change the variable that names the sink to play to.
    Variable(VariableStep),
    /// Leave the server.
    Disconnect,
}

/// A source that applications can see: the modules it is made of, and what the variable that names
/// the sink to play to was before.
#[derive(Debug)]
pub struct ActiveSource {
    modules: LoadedModules,
    previous: Option<String>,
}

impl ActiveSource {
    /// The modules that are still to be unloaded.
    pub closed spec fn modules(self) -> LoadedModules {
        self.modules
    }

    /// The value that the variable had before.
    pub closed spec fn previous(self) -> Option<Seq<char>> {
        match self.previous {
            Some(value) => Some(value@),
            None => None,
        }
    }

    /// The requests to unload what is still loaded: the source goes before what it reads from.
    pub open spec fn unload_steps(self) -> Seq<CleanupStep> {
        let source = match self.modules().source {
            Some(module) => seq![CleanupStep::Unload { kind: ModuleKind::Source, module }],
            None => Seq::empty(),
        };
        let sink = match self.modules().sink {
            Some(module) => seq![CleanupStep::Unload { kind: ModuleKind::Sink, module }],
            None => Seq::empty(),
        };
        source + sink
    }

    /// The source was made of these modules while the variable had the value `current`.
    pub open spec fn selected(self, modules: LoadedModules, current: Option<Seq<char>>) -> bool {
        self.modules() == modules && self.previous() == current
    }

    /// The source was taken down with these steps.
    pub open spec fn cleaned_from(self, before: Self, steps: Seq<CleanupStep>) -> bool {
        let unloads = before.unload_steps();
        &&& self.modules() == (LoadedModules { source: None, sink: None })
        &&& self.previous() == before.previous()
        &&& steps.len() == unloads.len() + 2
        &&& steps.take(unloads.len() as int) == unloads
        &&& steps[unloads.len() as int] matches CleanupStep::Variable(step) && step@
            == before.previous()
        &&& steps.last() == CleanupStep::Disconnect
    }

    /// Points the variable, which has the value `current`, at the sink of a source that was loaded.
    pub fn select(
        modules: LoadedModules,
        current: Option<String>,
        sink_name: &str,
    ) -> (selected: (Self, VariableStep))
        ensures
            selected.0.selected(
                modules,
                match current {
                    Some(value) => Some(value@),
                    None => None,
                },
            ),
            selected.1@ == Some(sink_name@),
    {
        (
            ActiveSource { modules, previous: current },
            VariableStep::Assign(sink_name.to_owned()),
        )
    }

    /// The step that gives the variable its earlier value back.
    pub fn restored(&self) -> (step: VariableStep)
        ensures
            step@ == self.previous(),
    {
        match &self.previous {
            Some(value) => VariableStep::Assign(value.as_str().to_owned()),
            None => VariableStep::Remove,
        }
    }

    /// The steps that take the source down, in order. Each module is named once, however often this
    /// is called.
    pub fn cleanup(&mut self) -> (steps: Vec<CleanupStep>)
        ensures
            final(self).cleaned_from(*old(self), steps@),
    {
        let ghost unloads = self.unload_steps();
        let mut steps: Vec<CleanupStep> = Vec::new();
        if let Some(module) = self.modules.source.take() {
            steps.push(CleanupStep::Unload { kind: ModuleKind::Source, module });
        }
        if let Some(module) = self.modules.sink.take() {
            steps.push(CleanupStep::Unload { kind: ModuleKind::Sink, module });
        }
        assert(steps@ =~= unloads);
        steps.push(CleanupStep::Variable(self.restored()));
        steps.push(CleanupStep::Disconnect);
        assert(steps@.take(unloads.len() as int) =~= unloads);
        steps
    }
}

/// What a source leaves its mark on: the variable, and the requests to unload modules.
pub struct Surroundings {
    pub variable: Option<Seq<char>>,
    pub unloads: Seq<u32>,
}

impl Surroundings {
    /// The surroundings after one step.
    pub open spec fn after_step(self, step: CleanupStep) -> Self {
        match step {
            CleanupStep::Unload { module, .. } => Surroundings {
                unloads: self.unloads.push(module),
                ..self
            },
            CleanupStep::Variable(step) => Surroundings { variable: step@, ..self },
            CleanupStep::Disconnect => self,
        }
    }

    /// The surroundings after some steps.
    pub open spec fn after_steps(self, steps: Seq<CleanupStep>) -> Self
        decreases steps.len(),
    {
        if steps.len() == 0 {
            self
        } else {
            self.after_steps(steps.drop_last()).after_step(steps.last())
        }
    }
}

/// Taking a source down, once or more often, undoes it: its modules are asked to be unloaded once
/// each, the source before the sink, and nothing else is; and the variable is what it was before
/// the source pointed it at its sink.
pub proof fn a_source_leaves_nothing_behind(
    before: Surroundings,
    modules: LoadedModules,
    pointed: VariableStep,
    sources: Seq<ActiveSource>,
    runs: Seq<Seq<CleanupStep>>,
    around: Seq<Surroundings>,
)
    requires
        sources[0].selected(modules, before.variable),
        around[0] == before.after_step(CleanupStep::Variable(pointed)),
        runs.len() > 0,
        sources.len() == runs.len() + 1,
        around.len() == runs.len() + 1,
        forall|k: int|
            0 <= k < runs.len() ==> {
                &&& (#[trigger] sources[k + 1]).cleaned_from(sources[k], runs[k])
                &&& around[k + 1] == around[k].after_steps(runs[k])
            },
    ensures
        around.last().variable == before.variable,
        around.last().unloads == before.unloads + modules.unload_order(),
        sources.last().selected(LoadedModules { source: None, sink: None }, before.variable),
    decreases runs.len(),
{
    let last = runs.len() - 1;
    assert(sources[last + 1].cleaned_from(sources[last], runs[last]));
    one_run_undoes(sources[last], sources[last + 1], runs[last], around[last]);
    if runs.len() > 1 {
        let fewer = runs.drop_last();
        let earlier = sources.drop_last();
        let sooner = around.drop_last();
        assert forall|k: int| 0 <= k < fewer.len() implies {
            &&& (#[trigger] earlier[k + 1]).cleaned_from(earlier[k], fewer[k])
            &&& sooner[k + 1] == sooner[k].after_steps(fewer[k])
        } by {
            assert(sources[k + 1] == earlier[k + 1]);
        }
        a_source_leaves_nothing_behind(before, modules, pointed, earlier, fewer, sooner);
        assert(sources[last].modules().unload_order() =~= Seq::<u32>::empty());
        assert(around.last().unloads =~= around[last].unloads);
    }
}

proof fn one_run_undoes(
    before: ActiveSource,
    after: ActiveSource,
    steps: Seq<CleanupStep>,
    around: Surroundings,
)
    requires
        after.cleaned_from(before, steps),
    ensures
        around.after_steps(steps).variable == before.previous(),
        around.after_steps(steps).unloads == around.unloads + before.modules().unload_order(),
{
    let unloads = before.unload_steps();
    let with_variable = steps.drop_last();
    let at_first = with_variable.drop_last();
    assert(at_first =~= steps.take(unloads.len() as int));
    assert(with_variable.last() == steps[unloads.len() as int]);
    reveal_with_fuel(Surroundings::after_steps, 3);
    if unloads.len() > 0 {
        assert(unloads.drop_last().len() < 2);
        if unloads.len() == 2 {
            assert(unloads.drop_last().drop_last() =~= Seq::<CleanupStep>::empty());
        } else {
            assert(unloads.drop_last() =~= Seq::<CleanupStep>::empty());
        }
    }
    assert(around.after_steps(unloads).unloads =~= around.unloads
        + before.modules().unload_order());
}

/// Waiting ends in an answer if there is one; without one it goes on if and only if the connection
/// may still bring one and the deadline has not come.
pub proof fn waiting_ends_with_the_connection_or_the_deadline(
    state: ServerState,
    now: Instant,
    deadline: Instant,
)
    ensures
        unanswered(state, now, deadline) != ServerWait::Done,
        unanswered(state, now, deadline) == ServerWait::Failed <==> state == ServerState::Failed
            || state == ServerState::Terminated,
        unanswered(state, now, deadline) == ServerWait::Iterate <==> (state == ServerState::Pending
            || state == ServerState::Ready) && now.nanos < deadline.nanos,
{
}

/// A source takes its steps down in this order: what reads from the sink goes before the sink, and
/// the variable is put back, and the server left, after both, whatever is still loaded.
pub proof fn steps_name_what_is_loaded(before: ActiveSource, after: ActiveSource, steps: Seq<CleanupStep>)
    requires
        after.cleaned_from(before, steps),
    ensures
        ({
            let source = before.modules().source;
            let sink = before.modules().sink;
            let unloads = (if source is Some {
                1int
            } else {
                0
            }) + (if sink is Some {
                1int
            } else {
                0
            });
            &&& steps.len() == unloads + 2
            &&& source matches Some(module) ==> steps[0] == (CleanupStep::Unload {
                kind: ModuleKind::Source,
                module,
            })
            &&& sink matches Some(module) ==> steps[unloads - 1] == (CleanupStep::Unload {
                kind: ModuleKind::Sink,
                module,
            })
            &&& steps[unloads] matches CleanupStep::Variable(step) && step@ == before.previous()
            &&& steps[unloads + 1] == CleanupStep::Disconnect
            &&& after.modules().source is None
            &&& after.modules().sink is None
            &&& after.previous() == before.previous()
        }),
{
    let unloads = before.unload_steps();
    if before.modules().source is Some {
        assert(steps[0] == steps.take(unloads.len() as int)[0]);
    }
    if before.modules().sink is Some {
        let last = unloads.len() - 1;
        assert(steps[last] == steps.take(unloads.len() as int)[last]);
    }
}

} // verus!
