//! Texts and objects in JSON.
use std::collections::BTreeMap;
use vstd::prelude::*;
use vstd::utf8::*;

use crate::bytes;
use crate::table;
use crate::table::{TextRow, TextTable};
use crate::text;

verus! {

// ---------------------------------------------------------------------------
// Texts
// ---------------------------------------------------------------------------

/// A character inside a JSON string.
pub open spec fn json_char(character: char) -> Seq<char> {
    if character == '"' || character == '\\' {
        seq!['\\', character]
    } else if character == '\u{8}' {
        seq!['\\', 'b']
    } else if character == '\t' {
        seq!['\\', 't']
    } else if character == '\n' {
        seq!['\\', 'n']
    } else if character == '\u{c}' {
        seq!['\\', 'f']
    } else if character == '\r' {
        seq!['\\', 'r']
    } else if (character as int) < 0x20 {
        seq![
            '\\',
            'u',
            '0',
            '0',
            text::hex_char(character as int / 16),
            text::hex_char(character as int % 16),
        ]
    } else {
        seq![character]
    }
}

/// The characters inside a JSON string.
pub open spec fn json_contents(value: Seq<char>) -> Seq<char>
    decreases value.len(),
{
    if value.len() == 0 {
        Seq::empty()
    } else {
        json_char(value[0]) + json_contents(value.skip(1))
    }
}

/// A text as a JSON string.
pub open spec fn json_string(value: Seq<char>) -> Seq<char> {
    seq!['"'] + json_contents(value) + seq!['"']
}

/// Wraps `serde_json::to_string` on a text: a JSON string, in which quotation marks,
/// backslashes and control characters are escaped and all else stands as it is.
#[verifier::external_body]
pub(crate) fn json_text(value: &str) -> (shown: Option<String>)
    ensures
        shown is Some,
        shown->0@ == json_string(value@),
{
    serde_json::to_string(value).ok()
}

/// The escapes of two characters begin alike only where the characters are the same.
proof fn lemma_json_char(left: char, left_rest: Seq<char>, right: char, right_rest: Seq<char>)
    requires
        json_char(left) + left_rest == json_char(right) + right_rest,
    ensures
        left == right,
        left_rest == right_rest,
{
    let all = json_char(left) + left_rest;
    let other = json_char(right) + right_rest;
    assert(all[0] == json_char(left)[0]);
    assert(other[0] == json_char(right)[0]);
    if json_char(left).len() > 1 {
        assert(all[1] == json_char(left)[1]);
    }
    if json_char(right).len() > 1 {
        assert(other[1] == json_char(right)[1]);
    }
    if json_char(left).len() == 6 && json_char(right).len() == 6 {
        assert(all[4] == json_char(left)[4]);
        assert(other[4] == json_char(right)[4]);
        assert(all[5] == json_char(left)[5]);
        assert(other[5] == json_char(right)[5]);
    }
    assert(left == right);
    let width = json_char(left).len() as int;
    assert(left_rest =~= all.skip(width));
    assert(right_rest =~= other.skip(width));
}

/// A JSON string says where it ends.
pub proof fn lemma_json_contents(
    left: Seq<char>,
    left_rest: Seq<char>,
    right: Seq<char>,
    right_rest: Seq<char>,
)
    requires
        json_contents(left) + seq!['"'] + left_rest == json_contents(right) + seq!['"']
            + right_rest,
    ensures
        left == right,
        left_rest == right_rest,
    decreases left.len(),
{
    let all = json_contents(left) + seq!['"'] + left_rest;
    let other = json_contents(right) + seq!['"'] + right_rest;
    if left.len() == 0 || right.len() == 0 {
        if left.len() > 0 {
            assert(all[0] == json_char(left[0])[0]);
            assert(other[0] == '"');
        }
        if right.len() > 0 {
            assert(other[0] == json_char(right[0])[0]);
            assert(all[0] == '"');
        }
        assert(left =~= right);
        assert(left_rest =~= all.skip(1));
        assert(right_rest =~= other.skip(1));
    } else {
        let behind = json_contents(left.skip(1)) + seq!['"'] + left_rest;
        let other_behind = json_contents(right.skip(1)) + seq!['"'] + right_rest;
        assert(all =~= json_char(left[0]) + behind);
        assert(other =~= json_char(right[0]) + other_behind);
        lemma_json_char(left[0], behind, right[0], other_behind);
        lemma_json_contents(left.skip(1), left_rest, right.skip(1), right_rest);
        assert(left =~= seq![left[0]] + left.skip(1));
        assert(right =~= seq![right[0]] + right.skip(1));
    }
}

// ---------------------------------------------------------------------------
// Objects
// ---------------------------------------------------------------------------

/// What a member of an object holds.
#[derive(Clone, Debug, PartialEq, Eq)]
pub struct Member {
    /// The text, where it is one.
    pub text: Option<String>,
    /// How it is written.
    pub json: String,
}

/// The contents of a [`Member`].
#[verifier::ext_equal]
pub struct MemberView {
    pub text: Option<Seq<char>>,
    pub json: Seq<char>,
}

impl View for Member {
    type V = MemberView;

    open spec fn view(&self) -> MemberView {
        MemberView {
            text: match self.text {
                Some(value) => Some(value@),
                None => None,
            },
            json: self.json@,
        }
    }
}

/// The contents of the members of a table.
pub open spec fn members_of(table: TextTable<Member>) -> Map<Seq<char>, MemberView> {
    table@.map_values(|member: Member| member@)
}

/// A member that is a text.
pub open spec fn text_member(value: Seq<char>) -> MemberView {
    MemberView { text: Some(value), json: json_string(value) }
}

/// Names and what they stand for, written as members of an object.
pub open spec fn members_text(rows: Seq<(Seq<char>, Seq<char>)>) -> Seq<char>
    decreases rows.len(),
{
    if rows.len() == 0 {
        Seq::empty()
    } else {
        let before = members_text(rows.drop_last());
        (if rows.len() == 1 {
            before
        } else {
            before.push(',')
        }) + json_string(rows.last().0) + seq![':'] + rows.last().1
    }
}

/// An object with members that are written so.
pub open spec fn object_text(rows: Seq<(Seq<char>, Seq<char>)>) -> Seq<char> {
    seq!['{'] + members_text(rows) + seq!['}']
}

/// No name occurs twice.
pub open spec fn names_distinct(rows: Seq<(Seq<char>, Seq<char>)>) -> bool {
    forall|i: int, j: int|
        0 <= i < j < rows.len() ==> (#[trigger] rows[i]).0 != (#[trigger] rows[j]).0
}

/// What some names stand for.
pub open spec fn names_map(rows: Seq<(Seq<char>, Seq<char>)>) -> Map<Seq<char>, Seq<char>>
    decreases rows.len(),
{
    if rows.len() == 0 {
        Map::empty()
    } else {
        names_map(rows.drop_last()).insert(rows.last().0, rows.last().1)
    }
}

/// Names and how their members are written.
pub open spec fn json_rows(rows: Seq<TextRow<Member>>) -> Seq<(Seq<char>, Seq<char>)> {
    rows.map_values(|row: TextRow<Member>| (row.key@, row.value.json@))
}

/// Names and their texts.
pub open spec fn text_rows(rows: Seq<TextRow<String>>) -> Seq<(Seq<char>, Seq<char>)> {
    rows.map_values(|row: TextRow<String>| (row.key@, row.value@))
}

/// The texts of a table.
pub open spec fn texts_of(table: TextTable<String>) -> Map<Seq<char>, Seq<char>> {
    table@.map_values(|value: String| value@)
}

/// Names and texts, the texts as they are written.
pub open spec fn quoted(rows: Seq<(Seq<char>, Seq<char>)>) -> Seq<(Seq<char>, Seq<char>)> {
    rows.map_values(|row: (Seq<char>, Seq<char>)| (row.0, json_string(row.1)))
}

/// Whether a text is an object that holds these texts and nothing else.
pub open spec fn is_text_object(object: Seq<char>, texts: Map<Seq<char>, Seq<char>>) -> bool {
    exists|rows: Seq<(Seq<char>, Seq<char>)>| #[trigger]
        names_distinct(rows) && names_map(rows) == texts && object == object_text(quoted(rows))
}

/// Whether a text is an object whose members are written so.
pub open spec fn is_object(object: Seq<char>, members: Map<Seq<char>, Seq<char>>) -> bool {
    exists|rows: Seq<(Seq<char>, Seq<char>)>| #[trigger]
        names_distinct(rows) && names_map(rows) == members && object == object_text(rows)
}

/// How the members of an object are written.
pub open spec fn written(members: Map<Seq<char>, MemberView>) -> Map<Seq<char>, Seq<char>> {
    members.map_values(|member: MemberView| member.json)
}

/// The members of the object that a text is, if it is JSON and if that is an object.
pub uninterp spec fn json_members(value: Seq<char>) -> Option<Option<Map<Seq<char>, MemberView>>>;

/// Every member that is a text is written as a JSON string.
pub open spec fn texts_are_quoted(members: Map<Seq<char>, MemberView>) -> bool {
    forall|name: Seq<char>| #[trigger]
        members.contains_key(name) && members[name].text is Some ==> members[name] == text_member(
            members[name].text->0,
        )
}

/// The name that `serde_json` reads as something else than a member.
pub const RESERVED_NAME: &'static str = "$serde_json::private::RawValue";

/// A JSON value whose numbers are integers.
pub enum JsonView {
    Null,
    Flag(bool),
    Number(int),
    Text(Seq<char>),
    List(Seq<JsonView>),
    Object(Seq<(Seq<char>, JsonView)>),
}

/// A JSON value as it is written.
pub open spec fn value_text(value: JsonView) -> Seq<char>
    decreases value,
{
    match value {
        JsonView::Null => "null"@,
        JsonView::Flag(true) => "true"@,
        JsonView::Flag(false) => "false"@,
        JsonView::Number(number) => text::signed_decimal(number),
        JsonView::Text(contents) => json_string(contents),
        JsonView::List(items) => seq!['['] + items_text(items) + seq![']'],
        JsonView::Object(fields) => seq!['{'] + fields_text(fields) + seq!['}'],
    }
}

/// The items of a JSON list as they are written.
pub open spec fn items_text(items: Seq<JsonView>) -> Seq<char>
    decreases items,
{
    if items.len() == 0 {
        Seq::empty()
    } else {
        (if items.len() == 1 {
            Seq::empty()
        } else {
            items_text(items.subrange(0, items.len() - 1)).push(',')
        }) + value_text(items[items.len() - 1])
    }
}

/// The fields of a JSON object as they are written.
pub open spec fn fields_text(fields: Seq<(Seq<char>, JsonView)>) -> Seq<char>
    decreases fields,
{
    if fields.len() == 0 {
        Seq::empty()
    } else {
        (if fields.len() == 1 {
            Seq::empty()
        } else {
            fields_text(fields.subrange(0, fields.len() - 1)).push(',')
        }) + json_string(fields[fields.len() - 1].0) + seq![':'] + value_text(
            fields[fields.len() - 1].1,
        )
    }
}

/// Whether a text comes before another by its characters.
pub open spec fn comes_before(left: Seq<char>, right: Seq<char>) -> bool {
    exists|shared: int|
        #![trigger left.take(shared)]
        0 <= shared <= left.len() && shared < right.len() && left.take(shared) == right.take(shared)
            && (shared == left.len() || (left[shared] as int) < right[shared] as int)
}

/// How deep the lists and objects of a member may stand in one another.
pub const MAX_DEPTH: u8 = 126;

/// Whether `serde_json` reads a value back as it is written: the integers fit its own,
/// the fields of each object are in order, none has the reserved name, and no more
/// than `depth` lists and objects stand in one another.
pub open spec fn is_plain(value: JsonView, depth: nat) -> bool
    decreases depth,
{
    match value {
        JsonView::Number(number) => i64::MIN <= number <= u64::MAX,
        JsonView::List(items) => depth > 0 && forall|i: int|
            0 <= i < items.len() ==> is_plain(#[trigger] items[i], (depth - 1) as nat),
        JsonView::Object(fields) => {
            &&& depth > 0
            &&& forall|i: int|
                0 <= i < fields.len() ==> (#[trigger] fields[i]).0 != RESERVED_NAME@ && is_plain(
                    fields[i].1,
                    (depth - 1) as nat,
                )
            &&& forall|i: int, j: int|
                0 <= i < j < fields.len() ==> comes_before(
                    (#[trigger] fields[i]).0,
                    (#[trigger] fields[j]).0,
                )
        },
        _ => true,
    }
}

/// Whether `serde_json` reads the members of an object back as they are written.
pub open spec fn are_plain(values: Map<Seq<char>, JsonView>) -> bool {
    forall|name: Seq<char>| #[trigger]
        values.contains_key(name) ==> name != RESERVED_NAME@ && is_plain(
            values[name],
            MAX_DEPTH as nat,
        )
}

/// A member that holds a value.
pub open spec fn member_of(value: JsonView) -> MemberView {
    MemberView {
        text: match value {
            JsonView::Text(contents) => Some(contents),
            _ => None,
        },
        json: value_text(value),
    }
}

/// The members that hold some values.
pub open spec fn value_members(values: Map<Seq<char>, JsonView>) -> Map<Seq<char>, MemberView> {
    values.map_values(|value: JsonView| member_of(value))
}

/// An object is read as the values that it was written with.
pub open spec fn reads_values(
    value: Seq<char>,
    parsed: Option<Option<TextTable<Member>>>,
) -> bool {
    forall|values: Map<Seq<char>, JsonView>|
        is_object(value, written(#[trigger] value_members(values))) && are_plain(values) ==> (
        parsed matches Some(Some(table)) && members_of(table) == value_members(values))
}

/// Whether a member is a text, or was read from some JSON.
pub open spec fn is_readable(member: MemberView) -> bool {
    ||| member.text matches Some(value) && member == text_member(value)
    ||| exists|source: Seq<char>, name: Seq<char>| #[trigger] holds_member(source, name, member)
}

/// Whether a text is an object that holds a member by a name.
pub open spec fn holds_member(source: Seq<char>, name: Seq<char>, member: MemberView) -> bool {
    json_members(source) matches Some(Some(members)) && members.contains_key(name) && members[name]
        == member
}

/// Whether each member is a text or was read from some JSON.
pub open spec fn are_readable(members: Map<Seq<char>, MemberView>) -> bool {
    forall|name: Seq<char>| #[trigger] members.contains_key(name) ==> is_readable(members[name])
}

/// Whether members have the same names and the same texts.
pub open spec fn same_texts(
    left: Map<Seq<char>, MemberView>,
    right: Map<Seq<char>, MemberView>,
) -> bool {
    &&& left.dom() == right.dom()
    &&& forall|name: Seq<char>| #[trigger]
        left.contains_key(name) ==> left[name].text == right[name].text
}

/// An object that is read at all is read with the names and the texts that it was
/// written with.
pub open spec fn keeps_texts(value: Seq<char>, parsed: Option<Option<TextTable<Member>>>) -> bool {
    forall|members: Map<Seq<char>, MemberView>|
        is_object(value, #[trigger] written(members)) && are_readable(members) && !text::occurs_in(
            value,
            RESERVED_NAME@,
        ) ==> (parsed is None || (parsed matches Some(Some(table)) && same_texts(
            members_of(table),
            members,
        )))
}

/// Wraps `serde_json::from_str` to a `serde_json::Value`, with the `as_object` of it and
/// of each member the `as_str` and the `to_string`: functions of the text alone. A member
/// that is a text is written as a JSON string. An object of values without fractions is
/// read as those values. An object of members that were read before is read with the
/// same names and the same texts, where it is read at all. A name that is reserved is
/// left out of both. How a number with a fraction is written when it is read again is
/// left unsaid, as is whether it is read again: the crate reads such numbers to within
/// a last place.
#[verifier::external_body]
pub(crate) fn parse_members(value: &str) -> (parsed: Option<Option<TextTable<Member>>>)
    ensures
        match json_members(value@) {
            None => parsed is None,
            Some(None) => parsed == Some(None::<TextTable<Member>>),
            Some(Some(members)) => parsed matches Some(Some(table)) && table.wf() && members_of(
                table,
            ) == members,
        },
        parsed matches Some(Some(table)) ==> texts_are_quoted(members_of(table)),
        reads_values(value@, parsed),
        keeps_texts(value@, parsed),
{
    let value = serde_json::from_str::<serde_json::Value>(value).ok()?;
    let members = value.as_object();
    Some(members.map(|members| TextTable { rows: members.iter().map(|(key, value)| TextRow {
        key: key.clone(),
        value: Member { text: value.as_str().map(str::to_owned), json: value.to_string() },
    }).collect() }))
}

/// The texts that an object holds, if some bytes are such an object.
pub uninterp spec fn json_texts(bytes: Seq<u8>) -> Option<Map<Seq<char>, Seq<char>>>;

/// What was written as an object of texts is read as those texts.
pub open spec fn reads_back(bytes: Seq<u8>, parsed: Option<TextTable<String>>) -> bool {
    forall|object: Seq<char>, texts: Map<Seq<char>, Seq<char>>| #[trigger]
        is_text_object(object, texts) && bytes == encode_utf8(object) ==> (parsed matches Some(
            table,
        ) && texts_of(table) == texts)
}

/// Wraps `serde_json::from_slice` to a map of texts: a function of the bytes alone. An
/// object that holds nothing but texts is read as those texts.
#[verifier::external_body]
pub(crate) fn parse_texts(bytes: &[u8]) -> (parsed: Option<TextTable<String>>)
    ensures
        match json_texts(bytes@) {
            None => parsed is None,
            Some(texts) => parsed matches Some(table) && table.wf() && texts_of(table) == texts,
        },
        reads_back(bytes@, parsed),
{
    let texts: BTreeMap<String, String> = serde_json::from_slice(bytes).ok()?;
    Some(TextTable { rows: texts.into_iter().map(|(key, value)| TextRow { key, value }).collect() })
}

/// The names of a table stand for what its rows hold.
proof fn lemma_json_rows(rows: Seq<TextRow<Member>>)
    requires
        table::text_keys_distinct(rows),
    ensures
        names_distinct(json_rows(rows)),
        names_map(json_rows(rows)) == table::text_rows_map(rows).map_values(
            |member: Member| member.json@,
        ),
    decreases rows.len(),
{
    let names = json_rows(rows);
    assert forall|i: int, j: int| 0 <= i < j < names.len() implies (#[trigger] names[i]).0 != (
    #[trigger] names[j]).0 by {
        assert(rows[i].key@ != rows[j].key@);
    }
    if rows.len() > 0 {
        assert(table::text_keys_distinct(rows.drop_last())) by {
            assert forall|i: int, j: int| 0 <= i < j < rows.len() - 1 implies (
            #[trigger] rows.drop_last()[i]).key@ != (#[trigger] rows.drop_last()[j]).key@ by {
                assert(rows[i].key@ != rows[j].key@);
            }
        }
        lemma_json_rows(rows.drop_last());
        assert(names.drop_last() =~= json_rows(rows.drop_last()));
    }
    assert(names_map(names) =~= table::text_rows_map(rows).map_values(
        |member: Member| member.json@,
    ));
}

/// The names of a table stand for its texts.
proof fn lemma_text_rows(rows: Seq<TextRow<String>>)
    requires
        table::text_keys_distinct(rows),
    ensures
        names_distinct(text_rows(rows)),
        names_map(text_rows(rows)) == table::text_rows_map(rows).map_values(|value: String| value@),
    decreases rows.len(),
{
    let names = text_rows(rows);
    assert forall|i: int, j: int| 0 <= i < j < names.len() implies (#[trigger] names[i]).0 != (
    #[trigger] names[j]).0 by {
        assert(rows[i].key@ != rows[j].key@);
    }
    if rows.len() > 0 {
        assert(table::text_keys_distinct(rows.drop_last())) by {
            assert forall|i: int, j: int| 0 <= i < j < rows.len() - 1 implies (
            #[trigger] rows.drop_last()[i]).key@ != (#[trigger] rows.drop_last()[j]).key@ by {
                assert(rows[i].key@ != rows[j].key@);
            }
        }
        lemma_text_rows(rows.drop_last());
        assert(names.drop_last() =~= text_rows(rows.drop_last()));
    }
    assert(names_map(names) =~= table::text_rows_map(rows).map_values(|value: String| value@));
}

/// Adds a member to an object that is being written.
fn push_member(object: &mut String, index: usize, name: &str, json: &str)
    ensures
        final(object)@ == (if index == 0 {
            old(object)@
        } else {
            old(object)@.push(',')
        }) + json_string(name@) + seq![':'] + json@,
{
    if index > 0 {
        object.push(',');
    }
    if let Some(quoted_name) = json_text(name) {
        object.append(quoted_name.as_str());
    }
    object.push(':');
    object.append(json);
    assert(object@ =~= (if index == 0 {
        old(object)@
    } else {
        old(object)@.push(',')
    }) + json_string(name@) + seq![':'] + json@);
}

/// Writes an object.
pub(crate) fn write_object(table: &TextTable<Member>) -> (object: String)
    requires
        table.wf(),
    ensures
        object@ == object_text(json_rows(table.rows@)),
        is_object(object@, table@.map_values(|member: Member| member.json@)),
{
    let mut object = "{".to_owned();
    let ghost names = json_rows(table.rows@);
    proof {
        reveal_strlit("{");
        assert(object@ =~= seq!['{'] + members_text(names.take(0)));
    }
    let mut index: usize = 0;
    while index < table.rows.len()
        invariant
            index <= table.rows@.len(),
            names == json_rows(table.rows@),
            object@ == seq!['{'] + members_text(names.take(index as int)),
        decreases table.rows@.len() - index,
    {
        let row = &table.rows[index];
        let ghost before = object@;
        push_member(&mut object, index, row.key.as_str(), row.value.json.as_str());
        proof {
            assert(names.take(index + 1).drop_last() =~= names.take(index as int));
            assert(names.take(index + 1).last() == (row.key@, row.value.json@));
            assert(object@ =~= seq!['{'] + members_text(names.take(index + 1)));
        }
        index += 1;
    }
    object.push('}');
    proof {
        assert(names.take(index as int) =~= names);
        assert(object@ =~= object_text(names));
        lemma_json_rows(table.rows@);
        assert(names_distinct(names));
    }
    object
}

/// Writes an object that holds texts.
pub(crate) fn write_texts(table: &TextTable<String>) -> (object: String)
    requires
        table.wf(),
    ensures
        is_text_object(object@, texts_of(*table)),
{
    let mut object = "{".to_owned();
    let ghost names = quoted(text_rows(table.rows@));
    proof {
        reveal_strlit("{");
        assert(object@ =~= seq!['{'] + members_text(names.take(0)));
    }
    let mut index: usize = 0;
    while index < table.rows.len()
        invariant
            index <= table.rows@.len(),
            names == quoted(text_rows(table.rows@)),
            object@ == seq!['{'] + members_text(names.take(index as int)),
        decreases table.rows@.len() - index,
    {
        let row = &table.rows[index];
        if let Some(value) = json_text(row.value.as_str()) {
            push_member(&mut object, index, row.key.as_str(), value.as_str());
        }
        proof {
            assert(names.take(index + 1).drop_last() =~= names.take(index as int));
            assert(names.take(index + 1).last() == (row.key@, json_string(row.value@)));
            assert(object@ =~= seq!['{'] + members_text(names.take(index + 1)));
        }
        index += 1;
    }
    object.push('}');
    proof {
        assert(names.take(index as int) =~= names);
        assert(object@ =~= object_text(names));
        lemma_text_rows(table.rows@);
        assert(names_distinct(text_rows(table.rows@)));
    }
    object
}

/// Where a member begins in the text of an object.
pub open spec fn member_start(rows: Seq<(Seq<char>, Seq<char>)>, index: int) -> int
    decreases index,
{
    if index <= 0 {
        1
    } else {
        member_start(rows, index - 1) + json_string(rows[index - 1].0).len() + rows[index
            - 1].1.len() + 2
    }
}

proof fn lemma_member_stands(rows: Seq<(Seq<char>, Seq<char>)>, index: int, rest: Seq<char>)
    requires
        0 <= index < rows.len(),
    ensures
        ({
            let object = seq!['{'] + members_text(rows) + rest;
            let at = member_start(rows, index);
            let name = json_string(rows[index].0);
            &&& bytes::stands_at(object, at, name)
            &&& object[at + name.len()] == ':'
            &&& bytes::stands_at(object, at + name.len() + 1, rows[index].1)
            &&& index > 0 ==> object[at - 1] == ','
        }),
        members_text(rows).len() == member_start(rows, rows.len() as int) - 2,
    decreases rows.len(),
{
    let object = seq!['{'] + members_text(rows) + rest;
    let before = rows.drop_last();
    let name = json_string(rows.last().0);
    let value = rows.last().1;
    let comma = if rows.len() == 1 {
        Seq::<char>::empty()
    } else {
        seq![',']
    };
    let front = seq!['{'] + members_text(before) + comma;
    lemma_member_start(rows, before, rows.len() - 1);
    if before.len() > 0 {
        lemma_member_stands(before, before.len() - 1, Seq::empty());
    }
    assert(front.len() == member_start(rows, rows.len() - 1));
    let tail = value + rest;
    assert(object =~= front + (name + (seq![':'] + tail)));
    if index == rows.len() - 1 {
        bytes::lemma_stands(object, front, name, seq![':'] + tail);
        let front1 = front + name + seq![':'];
        assert(object =~= front1 + (value + rest));
        bytes::lemma_stands(object, front1, value, rest);
    } else {
        let behind = comma + name + seq![':'] + value + rest;
        assert(object =~= seq!['{'] + members_text(before) + behind);
        lemma_member_stands(before, index, behind);
        lemma_member_start(rows, before, index);
        assert(before[index] == rows[index]);
    }
}

proof fn lemma_member_start(
    rows: Seq<(Seq<char>, Seq<char>)>,
    before: Seq<(Seq<char>, Seq<char>)>,
    index: int,
)
    requires
        before == rows.drop_last(),
        0 <= index < rows.len(),
    ensures
        member_start(rows, index) == member_start(before, index),
    decreases index,
{
    if index > 0 {
        lemma_member_start(rows, before, index - 1);
        assert(before[index - 1] == rows[index - 1]);
    }
}

/// An object is written in braces, each member as its name in quotes, a colon and its
/// value, with a comma between two of them and nothing else.
pub proof fn law_object_is_written(rows: Seq<(Seq<char>, Seq<char>)>, index: int)
    requires
        0 <= index < rows.len(),
    ensures
        ({
            let object = object_text(rows);
            let at = member_start(rows, index);
            let name = json_string(rows[index].0);
            &&& object[0] == '{' && object.last() == '}'
            &&& bytes::stands_at(object, at, name)
            &&& object[at + name.len()] == ':'
            &&& bytes::stands_at(object, at + name.len() + 1, rows[index].1)
            &&& index > 0 ==> object[at - 1] == ','
            &&& object.len() == member_start(rows, rows.len() as int)
        }),
{
    lemma_member_stands(rows, index, seq!['}']);
}

} // verus!
