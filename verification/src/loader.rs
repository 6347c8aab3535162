//! The loader: from the bytes of a trace document to a trace.

use vstd::prelude::*;
use vstd::string::{StrSliceExecFns, StringExecFns};
use crate::command::{
    category_of, kind_named, lemma_kind_named, payload_fits, shape_of, wire_name, Category,
    CommandDescriptor, CommandKind, CommandModel, Payload, PayloadModel, Shape,
};
use crate::json::{from_json, json_tree};
use crate::mock::{key_of, stored_key, MockResponseRecord, RecordModel};
use crate::text::{decimal, decimal_text, same_text};
use crate::trace::{InvocationStep, StepModel, TraceDefinition, TraceModel};
use crate::value::{ResponseValue, Tree};

verus! {

#[verifier::external_type_specification]
#[verifier::external_body]
pub struct ExJsonError(serde_json::Error);

#[verifier::external_type_specification]
#[verifier::external_body]
pub struct ExYamlError(serde_yaml::Error);

/// The format of a trace document.
#[derive(Clone, Copy, PartialEq, Eq, Structural, Debug)]
pub enum TraceFormat {
    /// JSON, in which comments are permitted.
    Json,
    /// YAML.
    Yaml,
}

/// What is wrong with one entry of a trace document.
#[derive(Clone, Copy, PartialEq, Eq, Structural, Debug)]
pub enum EntryError {
    /// The entry is not an object.
    NotAnObject,
    /// The entry has no text member `type`.
    MissingType,
    /// The entry's `type` names no kind.
    UnknownType,
    /// The entry's `data` is not of the shape that its kind asks for.
    BadData,
    /// The entry's `interactive` is not a boolean.
    BadInteractive,
}

/// Why a trace document does not load.
#[derive(Debug)]
pub enum LoadError {
    /// The file's name has no extension.
    MissingExtension,
    /// The extension names no accepted format.
    UnsupportedExtension,
    /// A comment or a text of the document does not end.
    BadComment,
    /// The document is not well-formed in its format: the parser's words.
    Malformed(String),
    /// The document is not an object.
    NotAnObject,
    /// The document has no array member `commands`.
    MissingCommands,
    /// The document has no array member `requests`.
    MissingRequests,
    /// The command at `index` is wrong.
    BadCommand { index: usize, reason: EntryError },
    /// The mock response at `index` is wrong.
    BadRequest { index: usize, reason: EntryError },
}

/// The model of a load error.
pub enum LoadFault {
    MissingExtension,
    UnsupportedExtension,
    BadComment,
    Malformed(Seq<char>),
    NotAnObject,
    MissingCommands,
    MissingRequests,
    BadCommand { index: int, reason: EntryError },
    BadRequest { index: int, reason: EntryError },
}

impl View for LoadError {
    type V = LoadFault;

    open spec fn view(&self) -> LoadFault {
        match self {
            LoadError::MissingExtension => LoadFault::MissingExtension,
            LoadError::UnsupportedExtension => LoadFault::UnsupportedExtension,
            LoadError::BadComment => LoadFault::BadComment,
            LoadError::Malformed(words) => LoadFault::Malformed(words@),
            LoadError::NotAnObject => LoadFault::NotAnObject,
            LoadError::MissingCommands => LoadFault::MissingCommands,
            LoadError::MissingRequests => LoadFault::MissingRequests,
            LoadError::BadCommand { index, reason } => LoadFault::BadCommand {
                index: *index as int,
                reason: *reason,
            },
            LoadError::BadRequest { index, reason } => LoadFault::BadRequest {
                index: *index as int,
                reason: *reason,
            },
        }
    }
}

/// What is wrong with an entry, in words.
pub open spec fn entry_words(reason: EntryError) -> Seq<char> {
    match reason {
        EntryError::NotAnObject => "is not an object"@,
        EntryError::MissingType => "has no text member `type`"@,
        EntryError::UnknownType => "names an unknown type"@,
        EntryError::BadData => "carries data that does not fit its type"@,
        EntryError::BadInteractive => "has an `interactive` that is not a boolean"@,
    }
}

/// Why a document does not load, in words: for a malformed document the
/// parser's own. Entries are counted from zero.
pub open spec fn load_message(fault: LoadFault) -> Seq<char> {
    match fault {
        LoadFault::MissingExtension => "Missing or invalid file extension"@,
        LoadFault::UnsupportedExtension => "Unsupported file extension"@,
        LoadFault::BadComment => "A comment or a quoted text of the document does not end"@,
        LoadFault::Malformed(words) => words,
        LoadFault::NotAnObject => "The document is not an object"@,
        LoadFault::MissingCommands => "The document has no array `commands`"@,
        LoadFault::MissingRequests => "The document has no array `requests`"@,
        LoadFault::BadCommand { index, reason } => "The command at index "@ + decimal(
            index as nat,
        ) + " "@ + entry_words(reason),
        LoadFault::BadRequest { index, reason } => "The request at index "@ + decimal(
            index as nat,
        ) + " "@ + entry_words(reason),
    }
}

impl EntryError {
    /// What is wrong with the entry, in words.
    pub fn words(self) -> (text: &'static str)
        ensures
            text@ == entry_words(self),
    {
        match self {
            EntryError::NotAnObject => "is not an object",
            EntryError::MissingType => "has no text member `type`",
            EntryError::UnknownType => "names an unknown type",
            EntryError::BadData => "carries data that does not fit its type",
            EntryError::BadInteractive => "has an `interactive` that is not a boolean",
        }
    }
}

impl LoadError {
    /// Why the document does not load, in words.
    pub fn message(&self) -> (text: String)
        ensures
            text@ == load_message(self@),
    {
        match self {
            LoadError::MissingExtension => String::from_str("Missing or invalid file extension"),
            LoadError::UnsupportedExtension => String::from_str("Unsupported file extension"),
            LoadError::BadComment => String::from_str(
                "A comment or a quoted text of the document does not end",
            ),
            LoadError::Malformed(words) => words.clone(),
            LoadError::NotAnObject => String::from_str("The document is not an object"),
            LoadError::MissingCommands => String::from_str("The document has no array `commands`"),
            LoadError::MissingRequests => String::from_str("The document has no array `requests`"),
            LoadError::BadCommand { index, reason } => {
                let mut text = String::from_str("The command at index ");
                let number = decimal_text(*index);
                text.append(number.as_str());
                text.append(" ");
                text.append(reason.words());
                text
            },
            LoadError::BadRequest { index, reason } => {
                let mut text = String::from_str("The request at index ");
                let number = decimal_text(*index);
                text.append(number.as_str());
                text.append(" ");
                text.append(reason.words());
                text
            },
        }
    }
}

/// A letter of `A` to `Z` as its small letter; any other character as it is.
pub open spec fn lower_char(c: char) -> char {
    if 'A' <= c <= 'Z' {
        ((c as u8 + 32) as u8) as char
    } else {
        c
    }
}

/// A text with its letters of `A` to `Z` made small.
pub open spec fn lower(s: Seq<char>) -> Seq<char> {
    Seq::new(s.len(), |i: int| lower_char(s[i]))
}

/// The format that a file extension stands for, whatever the case of its
/// letters.
pub open spec fn format_for(extension: Option<Seq<char>>) -> Result<TraceFormat, LoadFault> {
    match extension {
        None => Err(LoadFault::MissingExtension),
        Some(e) => {
            let l = lower(e);
            if l == "json"@ || l == "jsonc"@ {
                Ok(TraceFormat::Json)
            } else if l == "yaml"@ || l == "yml"@ {
                Ok(TraceFormat::Yaml)
            } else {
                Err(LoadFault::UnsupportedExtension)
            }
        },
    }
}

/// A text with its letters of `A` to `Z` made small.
pub fn lowered(s: &str) -> (out: String)
    ensures
        out@ == lower(s@),
{
    let n = s.unicode_len();
    let mut out = String::new();
    let mut i: usize = 0;
    while i < n
        invariant
            0 <= i <= n,
            n == s@.len(),
            out@ == lower(s@.subrange(0, i as int)),
        decreases n - i,
    {
        let c = s.get_char(i);
        let small = if 'A' <= c && c <= 'Z' {
            ((c as u8) + 32u8) as char
        } else {
            c
        };
        out.push(small);
        assert(out@ =~= lower(s@.subrange(0, i + 1)));
        i += 1;
    }
    assert(s@.subrange(0, n as int) =~= s@);
    out
}

/// The format that a file extension stands for.
pub fn format_of(extension: Option<&str>) -> (res: Result<TraceFormat, LoadError>)
    ensures
        match res {
            Ok(f) => format_for(
                match extension {
                    Some(e) => Some(e@),
                    None => None,
                },
            ) == Ok::<TraceFormat, LoadFault>(f),
            Err(e) => format_for(
                match extension {
                    Some(e) => Some(e@),
                    None => None,
                },
            ) == Err::<TraceFormat, LoadFault>(e@),
        },
{
    match extension {
        None => Err(LoadError::MissingExtension),
        Some(e) => {
            let l = lowered(e);
            if same_text(l.as_str(), "json") || same_text(l.as_str(), "jsonc") {
                Ok(TraceFormat::Json)
            } else if same_text(l.as_str(), "yaml") || same_text(l.as_str(), "yml") {
                Ok(TraceFormat::Yaml)
            } else {
                Err(LoadError::UnsupportedExtension)
            }
        },
    }
}

/// The bytes of a document with every comment blanked out, as
/// `json_comments::StripComments` gives them; nothing where a comment or a
/// quoted text does not end.
pub uninterp spec fn comment_free(content: Seq<u8>) -> Option<Seq<u8>>;

/// The tree that `serde_json::from_slice` reads from the bytes of a JSON
/// document, or the words of the error that it gives.
pub uninterp spec fn json_document(content: Seq<u8>) -> Result<Tree, Seq<char>>;

/// The tree that `serde_yaml::from_slice` reads from the bytes of a YAML
/// document, or the words of the error that it gives.
pub uninterp spec fn yaml_document(content: Seq<u8>) -> Result<Tree, Seq<char>>;

/// What a `serde_json::Error` says: its `Display` text.
pub uninterp spec fn json_error_words(e: serde_json::Error) -> Seq<char>;

/// What a `serde_yaml::Error` says: its `Display` text.
pub uninterp spec fn yaml_error_words(e: serde_yaml::Error) -> Seq<char>;

/// `json_comments::StripComments::new` over the bytes, read to the end: the
/// same bytes with each comment turned into spaces. The reader gives an
/// error at the end of the input inside a block comment or a quoted text,
/// and for a lone `/`; the contract gives the bytes their name.
#[verifier::external_body]
fn strip_comments(content: &[u8]) -> (out: Option<Vec<u8>>)
    ensures
        match out {
            Some(bytes) => comment_free(content@) == Some(bytes@),
            None => comment_free(content@) is None,
        },
{
    let mut bytes = Vec::new();
    let mut reader = json_comments::StripComments::new(content);
    match std::io::Read::read_to_end(&mut reader, &mut bytes) {
        Ok(_) => Some(bytes),
        Err(_) => None,
    }
}

/// `serde_json::from_slice` into a `serde_json::Value`: the parsed document
/// or the parser's error. The contract gives the document's tree, or what
/// the error says, its name.
#[verifier::external_body]
fn parse_json(content: &[u8]) -> (res: Result<serde_json::Value, serde_json::Error>)
    ensures
        match res {
            Ok(j) => json_document(content@) == Ok::<Tree, Seq<char>>(json_tree(j)),
            Err(e) => json_document(content@) == Err::<Tree, Seq<char>>(json_error_words(e)),
        },
{
    serde_json::from_slice::<serde_json::Value>(content)
}

/// `serde_yaml::from_slice` into a `serde_json::Value`: the parsed document
/// or the parser's error. The contract gives the document's tree, or what
/// the error says, its name.
#[verifier::external_body]
fn parse_yaml(content: &[u8]) -> (res: Result<serde_json::Value, serde_yaml::Error>)
    ensures
        match res {
            Ok(j) => yaml_document(content@) == Ok::<Tree, Seq<char>>(json_tree(j)),
            Err(e) => yaml_document(content@) == Err::<Tree, Seq<char>>(yaml_error_words(e)),
        },
{
    serde_yaml::from_slice::<serde_json::Value>(content)
}

/// `Display for serde_json::Error`, through `to_string`: the parser's
/// words, which the contract gives their name.
#[verifier::external_body]
fn json_error_text(e: &serde_json::Error) -> (words: String)
    ensures
        words@ == json_error_words(*e),
{
    e.to_string()
}

/// `Display for serde_yaml::Error`, through `to_string`: the parser's
/// words, which the contract gives their name.
#[verifier::external_body]
fn yaml_error_text(e: &serde_yaml::Error) -> (words: String)
    ensures
        words@ == yaml_error_words(*e),
{
    e.to_string()
}

/// The tree that a document of the given format holds, once its comments
/// are blanked out.
pub open spec fn document_tree(format: TraceFormat, content: Seq<u8>) -> Result<Tree, LoadFault> {
    match comment_free(content) {
        None => Err(LoadFault::BadComment),
        Some(bytes) => {
            let parsed = match format {
                TraceFormat::Json => json_document(bytes),
                TraceFormat::Yaml => yaml_document(bytes),
            };
            match parsed {
                Ok(t) => Ok(t),
                Err(words) => Err(LoadFault::Malformed(words)),
            }
        },
    }
}

/// Reads the bytes of a document of the given format into a value tree:
/// the comments are blanked out, then the format's parser reads the rest.
pub fn read_document(format: TraceFormat, content: &[u8]) -> (res: Result<
    ResponseValue,
    LoadError,
>)
    ensures
        match res {
            Ok(doc) => document_tree(format, content@) == Ok::<Tree, LoadFault>(doc@),
            Err(e) => document_tree(format, content@) == Err::<Tree, LoadFault>(e@),
        },
{
    let bytes = match strip_comments(content) {
        Some(bytes) => bytes,
        None => {
            return Err(LoadError::BadComment);
        },
    };
    match format {
        TraceFormat::Json => match parse_json(bytes.as_slice()) {
            Ok(j) => Ok(from_json(&j)),
            Err(e) => Err(LoadError::Malformed(json_error_text(&e))),
        },
        TraceFormat::Yaml => match parse_yaml(bytes.as_slice()) {
            Ok(j) => Ok(from_json(&j)),
            Err(e) => Err(LoadError::Malformed(yaml_error_text(&e))),
        },
    }
}

/// The member of an object with the given key.
pub open spec fn member(t: Tree, key: Seq<char>) -> Option<Tree> {
    match t {
        Tree::Record(m) => if m.contains_key(key) {
            Some(m[key])
        } else {
            None
        },
        _ => None,
    }
}

/// What a command of the given category carries, read from its `data`:
/// nothing for a parameterless kind, whose `data` is absent or null; the
/// text member `key` and the optional text member `packageName` for a
/// selector kind; the `data` itself, which must be there, for a
/// parameterized kind.
pub open spec fn payload_of(category: Category, data: Option<Tree>) -> Option<PayloadModel> {
    match category {
        Category::Parameterless => match data {
            None => Some(PayloadModel::Empty),
            Some(Tree::Null) => Some(PayloadModel::Empty),
            _ => None,
        },
        Category::Selector => match data {
            Some(d) => match (stored_key(d), member(d, "packageName"@)) {
                (Some(key), None) => Some(PayloadModel::Selector { extension: Seq::empty(), key }),
                (Some(key), Some(Tree::Text(extension))) => Some(
                    PayloadModel::Selector { extension, key },
                ),
                _ => None,
            },
            None => None,
        },
        Category::Parameterized => match data {
            Some(d) => Some(PayloadModel::Data(d)),
            None => None,
        },
    }
}

/// Whether a recorded response is of the given shape.
pub open spec fn shape_fits(shape: Shape, data: Tree) -> bool {
    match shape {
        Shape::Any => true,
        Shape::Optional => data is Null || data is Record,
        Shape::List => data is List,
        Shape::Flag => data is Bool,
        Shape::Number => data is Number,
        Shape::Text => data is Text,
        Shape::Record => data is Record,
        Shape::Keyed => stored_key(data) is Some,
    }
}

/// An absent member counts as null.
pub open spec fn or_null(t: Option<Tree>) -> Tree {
    match t {
        Some(x) => x,
        None => Tree::Null,
    }
}

/// The kind that an entry names in its text member `type`.
pub open spec fn entry_kind(entry: Tree) -> Result<CommandKind, EntryError> {
    if !(entry is Record) {
        Err(EntryError::NotAnObject)
    } else {
        match member(entry, "type"@) {
            Some(Tree::Text(name)) => match kind_named(name) {
                Some(kind) => Ok(kind),
                None => Err(EntryError::UnknownType),
            },
            _ => Err(EntryError::MissingType),
        }
    }
}

/// The step that an entry of `commands` stands for. Its `expected` counts
/// as absent where it is null; its `interactive` is false where absent.
pub open spec fn step_of(entry: Tree) -> Result<StepModel, EntryError> {
    match entry_kind(entry) {
        Err(e) => Err(e),
        Ok(kind) => match payload_of(category_of(kind), member(entry, "data"@)) {
            None => Err(EntryError::BadData),
            Some(payload) => match member(entry, "interactive"@) {
                None => Ok(
                    StepModel {
                        command: crate::command::CommandModel { kind, payload },
                        expected: expectation(entry),
                        interactive: false,
                    },
                ),
                Some(Tree::Bool(b)) => Ok(
                    StepModel {
                        command: crate::command::CommandModel { kind, payload },
                        expected: expectation(entry),
                        interactive: b,
                    },
                ),
                _ => Err(EntryError::BadInteractive),
            },
        },
    }
}

/// The expectation of an entry: its member `expected`, unless that is null.
pub open spec fn expectation(entry: Tree) -> Option<Tree> {
    match member(entry, "expected"@) {
        Some(Tree::Null) => None,
        other => other,
    }
}

/// The mock response that an entry of `requests` stands for.
pub open spec fn record_for(entry: Tree) -> Result<RecordModel, EntryError> {
    match entry_kind(entry) {
        Err(e) => Err(e),
        Ok(kind) => {
            let data = or_null(member(entry, "data"@));
            if shape_fits(shape_of(kind), data) {
                Ok(RecordModel { kind, data })
            } else {
                Err(EntryError::BadData)
            }
        },
    }
}

/// Reads the kind of an entry.
fn decode_kind(entry: &ResponseValue) -> (res: Result<CommandKind, EntryError>)
    ensures
        res == entry_kind(entry@),
{
    match entry {
        ResponseValue::Object(_) => {},
        _ => {
            return Err(EntryError::NotAnObject);
        },
    }
    match entry.get("type") {
        Some(ResponseValue::Text(name)) => match CommandKind::from_name(name.as_str()) {
            Some(kind) => Ok(kind),
            None => Err(EntryError::UnknownType),
        },
        _ => Err(EntryError::MissingType),
    }
}

/// Reads what a command of the given category carries from its `data`.
pub fn decode_payload(category: Category, data: Option<&ResponseValue>) -> (out: Option<Payload>)
    ensures
        match out {
            Some(p) => payload_of(
                category,
                match data {
                    Some(d) => Some(d@),
                    None => None,
                },
            ) == Some(p@),
            None => payload_of(
                category,
                match data {
                    Some(d) => Some(d@),
                    None => None,
                },
            ) is None,
        },
{
    match category {
        Category::Parameterless => match data {
            None => Some(Payload::Empty),
            Some(ResponseValue::Null) => Some(Payload::Empty),
            _ => None,
        },
        Category::Selector => match data {
            Some(d) => {
                let key = match key_of(d) {
                    Some(k) => k,
                    None => {
                        return None;
                    },
                };
                match d.get("packageName") {
                    None => Some(
                        Payload::Selector { extension: String::new(), key: String::from_str(key) },
                    ),
                    Some(ResponseValue::Text(extension)) => Some(
                        Payload::Selector { extension: extension.clone(), key: String::from_str(key) },
                    ),
                    _ => None,
                }
            },
            None => None,
        },
        Category::Parameterized => match data {
            Some(d) => Some(Payload::Data(d.clone())),
            None => None,
        },
    }
}

/// Whether a recorded response is of the given shape.
pub fn fits_shape(shape: Shape, data: &ResponseValue) -> (fits: bool)
    ensures
        fits == shape_fits(shape, data@),
{
    match shape {
        Shape::Any => true,
        Shape::Optional => match data {
            ResponseValue::Null | ResponseValue::Object(_) => true,
            _ => false,
        },
        Shape::List => match data {
            ResponseValue::Array(_) => true,
            _ => false,
        },
        Shape::Flag => match data {
            ResponseValue::Bool(_) => true,
            _ => false,
        },
        Shape::Number => match data {
            ResponseValue::Number(_) => true,
            _ => false,
        },
        Shape::Text => match data {
            ResponseValue::Text(_) => true,
            _ => false,
        },
        Shape::Record => match data {
            ResponseValue::Object(_) => true,
            _ => false,
        },
        Shape::Keyed => key_of(data).is_some(),
    }
}

/// Reads one entry of `commands`.
pub fn decode_step(entry: &ResponseValue) -> (res: Result<InvocationStep, EntryError>)
    ensures
        match res {
            Ok(step) => step_of(entry@) == Ok::<StepModel, EntryError>(step@),
            Err(e) => step_of(entry@) == Err::<StepModel, EntryError>(e),
        },
{
    let kind = match decode_kind(entry) {
        Ok(kind) => kind,
        Err(e) => {
            return Err(e);
        },
    };
    let payload = match decode_payload(kind.category(), entry.get("data")) {
        Some(p) => p,
        None => {
            return Err(EntryError::BadData);
        },
    };
    let interactive = match entry.get("interactive") {
        None => false,
        Some(ResponseValue::Bool(b)) => *b,
        _ => {
            return Err(EntryError::BadInteractive);
        },
    };
    let expected = match entry.get("expected") {
        None => None,
        Some(ResponseValue::Null) => None,
        Some(e) => Some(e.clone()),
    };
    Ok(InvocationStep { command: CommandDescriptor { kind, payload }, expected, interactive })
}

/// Reads one entry of `requests`.
pub fn decode_record(entry: &ResponseValue) -> (res: Result<MockResponseRecord, EntryError>)
    ensures
        match res {
            Ok(record) => record_for(entry@) == Ok::<RecordModel, EntryError>(record@),
            Err(e) => record_for(entry@) == Err::<RecordModel, EntryError>(e),
        },
{
    let kind = match decode_kind(entry) {
        Ok(kind) => kind,
        Err(e) => {
            return Err(e);
        },
    };
    let data = match entry.get("data") {
        Some(d) => d.clone(),
        None => ResponseValue::Null,
    };
    if fits_shape(kind.shape(), &data) {
        Ok(MockResponseRecord { kind, data })
    } else {
        Err(EntryError::BadData)
    }
}

/// The entries of the array member of a document with the given key.
pub open spec fn entries_of(doc: Tree, key: Seq<char>) -> Option<Seq<Tree>> {
    match member(doc, key) {
        Some(Tree::List(items)) => Some(items),
        _ => None,
    }
}

/// The document is an object with the two array members `commands` and
/// `requests`.
pub open spec fn has_both_lists(doc: Tree) -> bool {
    &&& doc is Record
    &&& entries_of(doc, "commands"@) is Some
    &&& entries_of(doc, "requests"@) is Some
}

/// The document stands for the trace: entry by entry, in order, each
/// command is the step it stands for and each request the mock response.
pub open spec fn decodes_to(doc: Tree, trace: TraceModel) -> bool {
    &&& has_both_lists(doc)
    &&& trace.steps.len() == entries_of(doc, "commands"@)->0.len()
    &&& forall|i: int|
        0 <= i < trace.steps.len() ==> step_of(#[trigger] entries_of(doc, "commands"@)->0[i])
            == Ok::<StepModel, EntryError>(trace.steps[i])
    &&& trace.mock_responses.len() == entries_of(doc, "requests"@)->0.len()
    &&& forall|i: int|
        0 <= i < trace.mock_responses.len() ==> record_for(
            #[trigger] entries_of(doc, "requests"@)->0[i],
        ) == Ok::<RecordModel, EntryError>(trace.mock_responses[i])
}

/// The document stands for no trace, and this is the first thing wrong with
/// it: its form, then its commands in order, then its requests in order.
pub open spec fn fails_with(doc: Tree, fault: LoadFault) -> bool {
    match fault {
        LoadFault::NotAnObject => !(doc is Record),
        LoadFault::MissingCommands => doc is Record && entries_of(doc, "commands"@) is None,
        LoadFault::MissingRequests => doc is Record && entries_of(doc, "commands"@) is Some
            && entries_of(doc, "requests"@) is None,
        LoadFault::BadCommand { index, reason } => {
            &&& has_both_lists(doc)
            &&& 0 <= index < entries_of(doc, "commands"@)->0.len()
            &&& step_of(entries_of(doc, "commands"@)->0[index]) == Err::<StepModel, EntryError>(
                reason,
            )
            &&& forall|j: int|
                0 <= j < index ==> step_of(#[trigger] entries_of(doc, "commands"@)->0[j]) is Ok
        },
        LoadFault::BadRequest { index, reason } => {
            &&& has_both_lists(doc)
            &&& forall|j: int|
                0 <= j < entries_of(doc, "commands"@)->0.len() ==> step_of(
                    #[trigger] entries_of(doc, "commands"@)->0[j],
                ) is Ok
            &&& 0 <= index < entries_of(doc, "requests"@)->0.len()
            &&& record_for(entries_of(doc, "requests"@)->0[index]) == Err::<
                RecordModel,
                EntryError,
            >(reason)
            &&& forall|j: int|
                0 <= j < index ==> record_for(#[trigger] entries_of(doc, "requests"@)->0[j]) is Ok
        },
        _ => false,
    }
}

/// A document stands for at most one trace, fails in at most one way, and
/// does not do both.
pub proof fn lemma_decoding_is_decided(doc: Tree, t1: TraceModel, t2: TraceModel, f1: LoadFault, f2: LoadFault)
    ensures
        decodes_to(doc, t1) && decodes_to(doc, t2) ==> t1 == t2,
        !(decodes_to(doc, t1) && fails_with(doc, f1)),
        fails_with(doc, f1) && fails_with(doc, f2) ==> f1 == f2,
{
    if decodes_to(doc, t1) && decodes_to(doc, t2) {
        let cmds = entries_of(doc, "commands"@)->0;
        let reqs = entries_of(doc, "requests"@)->0;
        assert forall|i: int| 0 <= i < t1.steps.len() implies t1.steps[i] == t2.steps[i] by {
            assert(step_of(cmds[i]) == Ok::<StepModel, EntryError>(t1.steps[i]));
            assert(step_of(cmds[i]) == Ok::<StepModel, EntryError>(t2.steps[i]));
        }
        assert forall|i: int| 0 <= i < t1.mock_responses.len() implies t1.mock_responses[i]
            == t2.mock_responses[i] by {
            assert(record_for(reqs[i]) == Ok::<RecordModel, EntryError>(t1.mock_responses[i]));
            assert(record_for(reqs[i]) == Ok::<RecordModel, EntryError>(t2.mock_responses[i]));
        }
        assert(t1.steps =~= t2.steps);
        assert(t1.mock_responses =~= t2.mock_responses);
    }
    if decodes_to(doc, t1) && fails_with(doc, f1) {
        match f1 {
            LoadFault::BadCommand { index, reason } => {
                assert(step_of(entries_of(doc, "commands"@)->0[index]) is Ok);
            },
            LoadFault::BadRequest { index, reason } => {
                assert(record_for(entries_of(doc, "requests"@)->0[index]) is Ok);
            },
            _ => {},
        }
    }
    if fails_with(doc, f1) && fails_with(doc, f2) {
        match (f1, f2) {
            (
                LoadFault::BadCommand { index: i1, reason: r1 },
                LoadFault::BadCommand { index: i2, reason: r2 },
            ) => {
                let cmds = entries_of(doc, "commands"@)->0;
                if i1 < i2 {
                    assert(step_of(cmds[i1]) is Ok);
                }
                if i2 < i1 {
                    assert(step_of(cmds[i2]) is Ok);
                }
            },
            (
                LoadFault::BadRequest { index: i1, reason: r1 },
                LoadFault::BadRequest { index: i2, reason: r2 },
            ) => {
                let reqs = entries_of(doc, "requests"@)->0;
                if i1 < i2 {
                    assert(record_for(reqs[i1]) is Ok);
                }
                if i2 < i1 {
                    assert(record_for(reqs[i2]) is Ok);
                }
            },
            (LoadFault::BadCommand { index, reason }, LoadFault::BadRequest { .. }) => {
                assert(step_of(entries_of(doc, "commands"@)->0[index]) is Ok);
            },
            (LoadFault::BadRequest { .. }, LoadFault::BadCommand { index, reason }) => {
                assert(step_of(entries_of(doc, "commands"@)->0[index]) is Ok);
            },
            _ => {},
        }
    }
}

/// Reads a trace from the value tree of a document: an object whose member
/// `commands` lists the steps and whose member `requests` lists the mock
/// responses. The error names the first thing wrong.
pub fn decode_trace(doc: &ResponseValue) -> (res: Result<TraceDefinition, LoadError>)
    ensures
        match res {
            Ok(trace) => decodes_to(doc@, trace@),
            Err(e) => fails_with(doc@, e@),
        },
{
    match doc {
        ResponseValue::Object(_) => {},
        _ => {
            return Err(LoadError::NotAnObject);
        },
    }
    let commands = match doc.get("commands") {
        Some(ResponseValue::Array(items)) => items,
        _ => {
            return Err(LoadError::MissingCommands);
        },
    };
    let requests = match doc.get("requests") {
        Some(ResponseValue::Array(items)) => items,
        _ => {
            return Err(LoadError::MissingRequests);
        },
    };
    let ghost cmds = entries_of(doc@, "commands"@)->0;
    let ghost reqs = entries_of(doc@, "requests"@)->0;
    let mut steps: Vec<InvocationStep> = Vec::new();
    let mut i: usize = 0;
    while i < commands.len()
        invariant
            0 <= i <= commands@.len(),
            has_both_lists(doc@),
            cmds == entries_of(doc@, "commands"@)->0,
            cmds == crate::value::list_of(commands@),
            steps@.len() == i,
            forall|j: int|
                0 <= j < i ==> step_of(#[trigger] cmds[j]) == Ok::<StepModel, EntryError>(
                    steps@[j]@,
                ),
        decreases commands@.len() - i,
    {
        match decode_step(&commands[i]) {
            Ok(step) => {
                steps.push(step);
            },
            Err(reason) => {
                return Err(LoadError::BadCommand { index: i, reason });
            },
        }
        i += 1;
    }
    let mut mock_responses: Vec<MockResponseRecord> = Vec::new();
    let mut k: usize = 0;
    while k < requests.len()
        invariant
            0 <= k <= requests@.len(),
            has_both_lists(doc@),
            cmds == entries_of(doc@, "commands"@)->0,
            reqs == entries_of(doc@, "requests"@)->0,
            reqs == crate::value::list_of(requests@),
            steps@.len() == cmds.len(),
            forall|j: int|
                0 <= j < steps@.len() ==> step_of(#[trigger] cmds[j]) == Ok::<
                    StepModel,
                    EntryError,
                >(steps@[j]@),
            mock_responses@.len() == k,
            forall|j: int|
                0 <= j < k ==> record_for(#[trigger] reqs[j]) == Ok::<RecordModel, EntryError>(
                    mock_responses@[j]@,
                ),
        decreases requests@.len() - k,
    {
        match decode_record(&requests[k]) {
            Ok(record) => {
                mock_responses.push(record);
            },
            Err(reason) => {
                return Err(LoadError::BadRequest { index: k, reason });
            },
        }
        k += 1;
    }
    Ok(TraceDefinition { steps, mock_responses })
}

/// What loading a document gives: the format by the extension, the tree of
/// the document in that format, and the trace that the tree stands for.
pub open spec fn loads_as(extension: Option<Seq<char>>, content: Seq<u8>, trace: TraceModel) -> bool {
    match format_for(extension) {
        Ok(format) => match document_tree(format, content) {
            Ok(doc) => decodes_to(doc, trace),
            Err(_) => false,
        },
        Err(_) => false,
    }
}

/// Why loading a document fails: for its extension, or else for its text,
/// or else for the first thing wrong with its tree.
pub open spec fn load_fails_with(extension: Option<Seq<char>>, content: Seq<u8>, fault: LoadFault) -> bool {
    match format_for(extension) {
        Ok(format) => match document_tree(format, content) {
            Ok(doc) => fails_with(doc, fault),
            Err(f) => fault == f,
        },
        Err(f) => fault == f,
    }
}

/// Loads a trace from the extension of a file's name and the file's bytes.
/// The extension decides the format, whatever the case of its letters:
/// `json` and `jsonc` are JSON, `yaml` and `yml` are YAML. Comments are
/// blanked out, the format's parser reads the document, and the document is
/// read as a trace. Nothing beyond the document's form is checked.
pub fn parse_test_case(extension: Option<&str>, content: &[u8]) -> (res: Result<
    TraceDefinition,
    LoadError,
>)
    ensures
        match res {
            Ok(trace) => loads_as(
                match extension {
                    Some(e) => Some(e@),
                    None => None,
                },
                content@,
                trace@,
            ),
            Err(e) => load_fails_with(
                match extension {
                    Some(e) => Some(e@),
                    None => None,
                },
                content@,
                e@,
            ),
        },
{
    let format = match format_of(extension) {
        Ok(f) => f,
        Err(e) => {
            return Err(e);
        },
    };
    let doc = match read_document(format, content) {
        Ok(doc) => doc,
        Err(e) => {
            return Err(e);
        },
    };
    decode_trace(&doc)
}

/// The `data` that a payload is written as in a document; nothing for an
/// empty payload. A selector payload is an object with the key and, where
/// the query names an extension, its `packageName`.
pub open spec fn payload_data(payload: PayloadModel) -> Option<Tree> {
    match payload {
        PayloadModel::Empty => None,
        PayloadModel::Selector { extension, key } => Some(
            if extension.len() == 0 {
                Tree::Record(Map::empty().insert("key"@, Tree::Text(key)))
            } else {
                Tree::Record(
                    Map::empty().insert("key"@, Tree::Text(key)).insert(
                        "packageName"@,
                        Tree::Text(extension),
                    ),
                )
            },
        ),
        PayloadModel::Data(d) => Some(d),
    }
}

/// The entry that a command is written as in a document: its `type` and,
/// where it carries anything, its `data`.
pub open spec fn command_entry(command: CommandModel) -> Tree {
    let named = Map::<Seq<char>, Tree>::empty().insert("type"@, Tree::Text(wire_name(command.kind)));
    match payload_data(command.payload) {
        Some(d) => Tree::Record(named.insert("data"@, d)),
        None => Tree::Record(named),
    }
}

/// The entry that a response to a query of a kind is written as in a
/// document: the kind as its `type`, the response as its `data`.
pub open spec fn response_entry(kind: CommandKind, response: Tree) -> Tree {
    Tree::Record(
        Map::empty().insert("type"@, Tree::Text(wire_name(kind))).insert("data"@, response),
    )
}

/// The member names of a trace document are six different texts.
proof fn lemma_member_names_differ()
    ensures
        "type"@ != "data"@,
        "type"@ != "expected"@,
        "type"@ != "interactive"@,
        "data"@ != "expected"@,
        "data"@ != "interactive"@,
        "key"@ != "packageName"@,
{
    reveal_strlit("type");
    reveal_strlit("data");
    reveal_strlit("expected");
    reveal_strlit("interactive");
    reveal_strlit("key");
    reveal_strlit("packageName");
    assert("type"@[0] != "data"@[0]);
    assert("type"@.len() != "expected"@.len());
    assert("type"@.len() != "interactive"@.len());
    assert("data"@.len() != "expected"@.len());
    assert("data"@.len() != "interactive"@.len());
    assert("key"@.len() != "packageName"@.len());
}

/// Writing a command and reading it back gives the command: the entry of a
/// command whose payload fits its kind is read as a step with that command,
/// no expectation, and no operator.
pub proof fn lemma_command_round_trip(command: CommandModel)
    requires
        payload_fits(category_of(command.kind), command.payload),
    ensures
        step_of(command_entry(command)) == Ok::<StepModel, EntryError>(
            StepModel { command, expected: None, interactive: false },
        ),
{
    lemma_member_names_differ();
    lemma_kind_named(command.kind);
    let entry = command_entry(command);
    assert(entry_kind(entry) == Ok::<CommandKind, EntryError>(command.kind));
    match command.payload {
        PayloadModel::Selector { extension, key } => {
            let d = payload_data(command.payload)->0;
            assert(member(entry, "data"@) == Some(d));
            assert(stored_key(d) == Some(key));
            if extension.len() == 0 {
                assert(extension =~= Seq::<char>::empty());
                assert(member(d, "packageName"@) is None);
            } else {
                assert(member(d, "packageName"@) == Some(Tree::Text(extension)));
            }
        },
        PayloadModel::Data(d) => {
            assert(member(entry, "data"@) == Some(d));
        },
        PayloadModel::Empty => {
            assert(member(entry, "data"@) is None);
        },
    }
    assert(member(entry, "interactive"@) is None);
    assert(member(entry, "expected"@) is None);
}

/// Writing a response and reading it back gives the response: the entry of
/// a response that is of its kind's shape is read as the mock response of
/// that kind with that data.
pub proof fn lemma_response_round_trip(kind: CommandKind, response: Tree)
    requires
        shape_fits(shape_of(kind), response),
    ensures
        record_for(response_entry(kind, response)) == Ok::<RecordModel, EntryError>(
            RecordModel { kind, data: response },
        ),
{
    lemma_member_names_differ();
    lemma_kind_named(kind);
    let entry = response_entry(kind, response);
    assert(member(entry, "type"@) == Some(Tree::Text(wire_name(kind))));
    assert(member(entry, "data"@) == Some(response));
}

/// Writes a command as the entry of a document.
pub fn encode_command(command: &CommandDescriptor) -> (entry: ResponseValue)
    ensures
        entry@ == command_entry(command@),
{
    proof {
        lemma_member_names_differ();
    }
    let named = ResponseValue::object().with_member(
        "type",
        ResponseValue::Text(String::from_str(command.kind.name())),
    );
    match &command.payload {
        Payload::Empty => named,
        Payload::Selector { extension, key } => {
            let keyed = ResponseValue::object().with_member(
                "key",
                ResponseValue::Text(key.clone()),
            );
            let data = if extension.as_str().unicode_len() == 0 {
                keyed
            } else {
                keyed.with_member("packageName", ResponseValue::Text(extension.clone()))
            };
            named.with_member("data", data)
        },
        Payload::Data(d) => named.with_member("data", d.clone()),
    }
}

/// Writes the response to a query of a kind as the entry of a document.
pub fn encode_response(kind: CommandKind, response: &ResponseValue) -> (entry: ResponseValue)
    ensures
        entry@ == response_entry(kind, response@),
{
    proof {
        lemma_member_names_differ();
    }
    ResponseValue::object().with_member(
        "type",
        ResponseValue::Text(String::from_str(kind.name())),
    ).with_member("data", response.clone())
}

} // verus!
