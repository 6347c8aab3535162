//! The mock response synthesizer: it answers a query of the host from the
//! pool of recorded responses, or with the default of the query's kind.

use vstd::prelude::*;
use vstd::string::{StrSliceExecFns, StringExecFns};
use crate::command::{
    category_of, display_name, shape_of, Category, CommandDescriptor, CommandKind, CommandModel,
    Payload, PayloadModel, Shape,
};
use crate::json::compact_text;
use crate::loader::{member, or_null};
use crate::number::number_from_u64;
use crate::text::{decimal, same_text};
use crate::value::{ResponseValue, Tree};

verus! {

/// One recorded answer: the kind it answers and the response to give. For
/// a selector kind the response is an object whose member `key` tells which
/// query it answers.
#[derive(Debug)]
pub struct MockResponseRecord {
    pub kind: CommandKind,
    pub data: ResponseValue,
}

/// The model of a recorded answer.
pub struct RecordModel {
    pub kind: CommandKind,
    pub data: Tree,
}

impl View for MockResponseRecord {
    type V = RecordModel;

    open spec fn view(&self) -> RecordModel {
        RecordModel { kind: self.kind, data: self.data@ }
    }
}

impl Clone for MockResponseRecord {
    fn clone(&self) -> (out: MockResponseRecord)
        ensures
            out@ == self@,
    {
        MockResponseRecord { kind: self.kind, data: self.data.clone() }
    }
}

/// The models of a pool of recorded answers, in the order of the document.
pub open spec fn pool_view(pool: Seq<MockResponseRecord>) -> Seq<RecordModel> {
    Seq::new(pool.len(), |i: int| pool[i]@)
}

/// The key under which a recorded response is stored: its text member
/// `key`, if it has one.
pub open spec fn stored_key(data: Tree) -> Option<Seq<char>> {
    match data {
        Tree::Record(m) => if m.contains_key("key"@) && m["key"@] is Text {
            Some(m["key"@]->Text_0)
        } else {
            None
        },
        _ => None,
    }
}

/// The key that a selector query looks up: the raw key, qualified by the
/// extension's name and a dot where the query names an extension.
pub open spec fn derived_key(extension: Seq<char>, key: Seq<char>) -> Seq<char> {
    if extension.len() == 0 {
        key
    } else {
        extension + seq!['.'] + key
    }
}

/// The key that a query looks up, if it carries one.
pub open spec fn lookup_key(query: CommandModel) -> Option<Seq<char>> {
    match query.payload {
        PayloadModel::Selector { extension, key } => Some(derived_key(extension, key)),
        _ => None,
    }
}

/// Whether a record answers a query: it is of the query's kind and, for a
/// selector kind, stored under the key that the query looks up.
pub open spec fn answers(record: RecordModel, query: CommandModel) -> bool {
    &&& record.kind == query.kind
    &&& category_of(query.kind) is Selector ==> lookup_key(query) is Some && stored_key(
        record.data,
    ) == lookup_key(query)
}

/// `i` is the place of the first record of the pool that answers the query.
pub open spec fn is_first_answer(pool: Seq<RecordModel>, query: CommandModel, i: int) -> bool {
    &&& 0 <= i < pool.len()
    &&& answers(pool[i], query)
    &&& forall|j: int| 0 <= j < i ==> !answers(pool[j], query)
}

/// The default value of a response shape.
pub open spec fn default_value(shape: Shape) -> Tree {
    match shape {
        Shape::Any | Shape::Optional => Tree::Null,
        Shape::List => Tree::List(Seq::empty()),
        Shape::Flag => Tree::Bool(false),
        Shape::Number => Tree::Number(decimal(0)),
        Shape::Text => Tree::Text(Seq::empty()),
        Shape::Record => Tree::Record(Map::empty()),
        Shape::Keyed => Tree::Record(
            Map::empty().insert("key"@, Tree::Text(Seq::empty())).insert("value"@, Tree::Null),
        ),
    }
}

/// The answer to a query: the response of the first record of the pool that
/// answers it, or the default of its kind's response shape where none does.
pub open spec fn synthesized(query: CommandModel, pool: Seq<RecordModel>) -> Tree {
    if exists|i: int| is_first_answer(pool, query, i) {
        pool[choose|i: int| is_first_answer(pool, query, i)].data
    } else {
        default_value(shape_of(query.kind))
    }
}

/// The first answering record is the one whose response is synthesized.
pub proof fn lemma_synthesized_from(pool: Seq<RecordModel>, query: CommandModel, i: int)
    requires
        is_first_answer(pool, query, i),
    ensures
        synthesized(query, pool) == pool[i].data,
{
    let c = choose|c: int| is_first_answer(pool, query, c);
    if c < i {
        assert(!answers(pool[c], query));
    }
    if i < c {
        assert(!answers(pool[i], query));
    }
}

/// A selector query is answered only by a record stored under the key it
/// looks up: a record of the same kind under another key is never the one
/// selected.
pub proof fn lemma_selector_key_decides(pool: Seq<RecordModel>, query: CommandModel, j: int)
    requires
        category_of(query.kind) is Selector,
        0 <= j < pool.len(),
        stored_key(pool[j].data) != lookup_key(query),
    ensures
        !is_first_answer(pool, query, j),
        forall|i: int|
            is_first_answer(pool, query, i) ==> stored_key(pool[i].data) == lookup_key(query) && i
                != j,
{
}

/// Where the pool holds no record of the query's kind, the answer is the
/// default of that kind.
pub proof fn lemma_default_without_record(pool: Seq<RecordModel>, query: CommandModel)
    requires
        forall|j: int| 0 <= j < pool.len() ==> pool[j].kind != query.kind,
    ensures
        synthesized(query, pool) == default_value(shape_of(query.kind)),
{
}

/// The key under which a recorded response is stored.
pub fn key_of(data: &ResponseValue) -> (key: Option<&str>)
    ensures
        match key {
            Some(k) => stored_key(data@) == Some(k@),
            None => stored_key(data@) is None,
        },
{
    match data.get("key") {
        Some(ResponseValue::Text(k)) => Some(k.as_str()),
        _ => None,
    }
}

/// The key that a selector query looks up.
pub fn query_key(extension: &str, key: &str) -> (out: String)
    ensures
        out@ == derived_key(extension@, key@),
{
    if extension.unicode_len() == 0 {
        String::from_str(key)
    } else {
        let mut out = String::from_str(extension);
        out.push('.');
        out.append(key);
        out
    }
}

/// The first record of the given kind that is stored under `key`, for a
/// selector kind; for any other kind there is none.
pub fn find_matching_preference(key: &str, requests: &[MockResponseRecord], kind: CommandKind) -> (found:
    Option<usize>)
    ensures
        match found {
            Some(i) => {
                &&& category_of(kind) is Selector
                &&& i < requests@.len()
                &&& requests@[i as int].kind == kind
                &&& stored_key(requests@[i as int].data@) == Some(key@)
                &&& forall|j: int|
                    0 <= j < i ==> !(requests@[j].kind == kind && stored_key(requests@[j].data@)
                        == Some(key@))
            },
            None => category_of(kind) is Selector ==> forall|j: int|
                0 <= j < requests@.len() ==> !(requests@[j].kind == kind && stored_key(
                    requests@[j].data@,
                ) == Some(key@)),
        },
{
    match kind.category() {
        Category::Selector => {},
        _ => {
            return None;
        },
    }
    let mut i: usize = 0;
    while i < requests.len()
        invariant
            0 <= i <= requests@.len(),
            category_of(kind) is Selector,
            forall|j: int|
                0 <= j < i ==> !(requests@[j].kind == kind && stored_key(requests@[j].data@)
                    == Some(key@)),
        decreases requests@.len() - i,
    {
        if requests[i].kind == kind {
            match key_of(&requests[i].data) {
                Some(k) => {
                    if same_text(k, key) {
                        return Some(i);
                    }
                },
                None => {},
            }
        }
        i += 1;
    }
    None
}

/// The first record of the pool that answers the query.
pub fn find_matching_request(command: &CommandDescriptor, requests: &[MockResponseRecord]) -> (found:
    Option<usize>)
    ensures
        match found {
            Some(i) => is_first_answer(pool_view(requests@), command@, i as int),
            None => forall|j: int|
                0 <= j < requests@.len() ==> !answers(#[trigger] pool_view(requests@)[j], command@),
        },
{
    match command.kind.category() {
        Category::Selector => {
            match &command.payload {
                Payload::Selector { extension, key } => {
                    let wanted = query_key(extension.as_str(), key.as_str());
                    find_matching_preference(wanted.as_str(), requests, command.kind)
                },
                _ => None,
            }
        },
        _ => {
            let mut i: usize = 0;
            while i < requests.len()
                invariant
                    0 <= i <= requests@.len(),
                    !(category_of(command.kind) is Selector),
                    forall|j: int| 0 <= j < i ==> requests@[j].kind != command.kind,
                decreases requests@.len() - i,
            {
                if requests[i].kind == command.kind {
                    return Some(i);
                }
                i += 1;
            }
            None
        },
    }
}

/// The response that a record gives: its data, as recorded.
pub fn create_response_from_request(request: &MockResponseRecord) -> (response: ResponseValue)
    ensures
        response@ == request@.data,
{
    request.data.clone()
}

/// The default response of a kind: the default of its response shape.
pub fn create_default_response(command: &CommandDescriptor) -> (response: ResponseValue)
    ensures
        response@ == default_value(shape_of(command.kind)),
{
    match command.kind.shape() {
        Shape::Any | Shape::Optional => ResponseValue::Null,
        Shape::List => {
            let out = ResponseValue::Array(Vec::new());
            assert(out@->List_0 =~= Seq::<Tree>::empty());
            out
        },
        Shape::Flag => ResponseValue::Bool(false),
        Shape::Number => ResponseValue::Number(number_from_u64(0)),
        Shape::Text => ResponseValue::Text(String::new()),
        Shape::Record => ResponseValue::object(),
        Shape::Keyed => {
            proof {
                reveal_strlit("key");
                reveal_strlit("value");
                assert("key"@.len() != "value"@.len());
            }
            ResponseValue::object().with_member(
                "key",
                ResponseValue::Text(String::new()),
            ).with_member("value", ResponseValue::Null)
        },
    }
}

/// Answers a query from the pool: with the response of the first record
/// that answers it, in the order of the document, or with the default of
/// the query's kind where no record does. There is always an answer.
pub fn synthesize(query: &CommandDescriptor, pool: &[MockResponseRecord]) -> (response:
    ResponseValue)
    ensures
        response@ == synthesized(query@, pool_view(pool@)),
{
    match find_matching_request(query, pool) {
        Some(i) => {
            proof {
                lemma_synthesized_from(pool_view(pool@), query@, i as int);
            }
            create_response_from_request(&pool[i])
        },
        None => create_default_response(query),
    }
}

/// How a query is described to the operator: a selector query by its kind
/// and the key it looks up, any other by its kind and what it carries.
pub open spec fn query_description(query: CommandModel) -> Seq<char> {
    match query.payload {
        PayloadModel::Selector { extension, key } => display_name(query.kind) + " with key '"@
            + derived_key(extension, key) + "'"@,
        PayloadModel::Data(v) => display_name(query.kind) + "("@ + compact_text(v) + ")"@,
        PayloadModel::Empty => display_name(query.kind),
    }
}

/// The key of a response, or the empty text where it has none.
pub open spec fn key_or_empty(response: Tree) -> Seq<char> {
    match stored_key(response) {
        Some(k) => k,
        None => Seq::empty(),
    }
}

/// How a response is described to the operator: that of a selector kind by
/// its key and its value, any other by the kind and the response.
pub open spec fn response_description(kind: CommandKind, response: Tree) -> Seq<char> {
    if category_of(kind) is Selector {
        "data for key '"@ + key_or_empty(response) + "': '"@ + compact_text(
            or_null(member(response, "value"@)),
        ) + "'"@
    } else {
        display_name(kind) + "("@ + compact_text(response) + ")"@
    }
}

/// Describes a query to the operator.
pub fn describe_query(query: &CommandDescriptor) -> (text: String)
    ensures
        text@ == query_description(query@),
{
    let mut text = String::from_str(query.kind.label());
    match &query.payload {
        Payload::Selector { extension, key } => {
            text.append(" with key '");
            let wanted = query_key(extension.as_str(), key.as_str());
            text.append(wanted.as_str());
            text.append("'");
        },
        Payload::Data(v) => {
            text.append("(");
            let data = v.to_compact_text();
            text.append(data.as_str());
            text.append(")");
        },
        Payload::Empty => {},
    }
    text
}

/// Describes the response to a query of the given kind to the operator.
pub fn describe_response(kind: CommandKind, response: &ResponseValue) -> (text: String)
    ensures
        text@ == response_description(kind, response@),
{
    match kind.category() {
        Category::Selector => {
            let mut text = String::from_str("data for key '");
            match key_of(response) {
                Some(k) => {
                    text.append(k);
                },
                None => {
                    assert(text@ + Seq::<char>::empty() =~= text@);
                },
            }
            text.append("': '");
            let value = match response.get("value") {
                Some(v) => v.to_compact_text(),
                None => ResponseValue::Null.to_compact_text(),
            };
            text.append(value.as_str());
            text.append("'");
            text
        },
        _ => {
            let mut text = String::from_str(kind.label());
            text.append("(");
            let data = response.to_compact_text();
            text.append(data.as_str());
            text.append(")");
            text
        },
    }
}

/// The answer to a query of the host, with what the operator is told of
/// the query and of the answer.
#[derive(Debug)]
pub struct Answer {
    pub response: ResponseValue,
    pub request_description: String,
    pub response_description: String,
}

/// Answers a query of the host from the pool and describes the query and
/// the answer for the operator. The answer depends on the query and the
/// pool alone, and there always is one.
pub fn answer_query(query: &CommandDescriptor, pool: &[MockResponseRecord]) -> (answer: Answer)
    ensures
        answer.response@ == synthesized(query@, pool_view(pool@)),
        answer.request_description@ == query_description(query@),
        answer.response_description@ == response_description(query.kind, answer.response@),
{
    let response = synthesize(query, pool);
    let request_description = describe_query(query);
    let response_description = describe_response(query.kind, &response);
    Answer { response, request_description, response_description }
}

} // verus!
