//! The preferences of a profile.
use vstd::prelude::*;

use crate::json;
use crate::json::{json_text, parse_members, write_object, JsonView, Member, MemberView};
use crate::table::TextTable;
use crate::text;

verus! {

/// Why preferences could not be read.
#[derive(Clone, Copy, Debug, PartialEq, Eq, Structural)]
pub enum PreferenceError {
    NotJson,
}

/// The preferences in a file that need not be there. What is JSON but no object holds
/// none.
pub open spec fn preferences_in(file: Option<Seq<char>>) -> Result<
    Map<Seq<char>, MemberView>,
    PreferenceError,
> {
    match file {
        None => Ok(Map::empty()),
        Some(contents) => match json::json_members(contents) {
            None => Err(PreferenceError::NotJson),
            Some(None) => Ok(Map::empty()),
            Some(Some(members)) => Ok(members),
        },
    }
}

/// The language among some preferences: a text by that name.
pub open spec fn language_in(members: Map<Seq<char>, MemberView>) -> Option<Seq<char>> {
    if members.contains_key("language"@) {
        members["language"@].text
    } else {
        None
    }
}

/// Preferences with a language.
pub open spec fn with_text(members: Map<Seq<char>, MemberView>, language: Seq<char>) -> Map<
    Seq<char>,
    MemberView,
> {
    members.insert("language"@, json::text_member(language))
}

/// The contents of an optional text.
pub open spec fn text_of(value: Option<&str>) -> Option<Seq<char>> {
    match value {
        Some(value) => Some(value@),
        None => None,
    }
}

/// Reads the preferences in a file that need not be there.
fn read_preferences(file: Option<&str>) -> (result: Result<TextTable<Member>, PreferenceError>)
    ensures
        match preferences_in(text_of(file)) {
            Ok(members) => result matches Ok(table) && table.wf() && json::members_of(table)
                == members,
            Err(error) => result == Err::<TextTable<Member>, PreferenceError>(error),
        },
        result matches Ok(table) ==> json::texts_are_quoted(json::members_of(table)),
        file matches Some(contents) ==> forall|values: Map<Seq<char>, JsonView>|
            json::is_object(contents@, json::written(#[trigger] json::value_members(values)))
                && json::are_plain(values) ==> (result matches Ok(table) && json::members_of(table)
                == json::value_members(values)),
        file matches Some(contents) ==> forall|members: Map<Seq<char>, MemberView>|
            json::is_object(contents@, #[trigger] json::written(members)) && json::are_readable(
                members,
            ) && !text::occurs_in(contents@, json::RESERVED_NAME@) ==> (result is Err || (
            result matches Ok(table) && json::same_texts(json::members_of(table), members))),
{
    let none = TextTable::<Member>::new();
    assert(json::members_of(none) =~= Map::<Seq<char>, MemberView>::empty());
    match file {
        None => Ok(none),
        Some(contents) => match parse_members(contents) {
            None => Err(PreferenceError::NotJson),
            Some(None) => Ok(none),
            Some(Some(table)) => Ok(table),
        },
    }
}

/// The language among some preferences.
pub fn find_language(preferences: &TextTable<Member>) -> (language: Option<String>)
    requires
        preferences.wf(),
    ensures
        match language_in(json::members_of(*preferences)) {
            Some(value) => language matches Some(found) && found@ == value,
            None => language is None,
        },
{
    match preferences.get("language") {
        None => None,
        Some(member) => match &member.text {
            Some(value) => Some(value.as_str().to_owned()),
            None => None,
        },
    }
}

/// Gives preferences a language, and keeps the others.
pub fn with_language(preferences: TextTable<Member>, language: &str) -> (after: TextTable<Member>)
    requires
        preferences.wf(),
    ensures
        after.wf(),
        json::members_of(after) == with_text(json::members_of(preferences), language@),
{
    let mut after = preferences;
    if let Some(json) = json_text(language) {
        let member = Member { text: Some(language.to_owned()), json };
        assert(member@ =~= json::text_member(language@));
        after.put("language", member);
        assert(json::members_of(after) =~= with_text(json::members_of(preferences), language@));
    }
    after
}

/// The language of a profile, from its preferences. A file of preferences is read as
/// the values that it was written with, and where it holds numbers with fractions it
/// is read with the same texts, if it is read at all.
pub fn load_profile_language(file: Option<&str>) -> (result: Result<
    Option<String>,
    PreferenceError,
>)
    ensures
        match preferences_in(text_of(file)) {
            Ok(members) => is_language(result, language_in(members)),
            Err(error) => result == Err::<Option<String>, PreferenceError>(error),
        },
        file matches Some(contents) ==> forall|values: Map<Seq<char>, JsonView>|
            is_preferences_file(contents@, #[trigger] json::value_members(values))
                && json::are_plain(values) ==> is_language(
                result,
                language_in(json::value_members(values)),
            ),
        file matches Some(contents) ==> forall|members: Map<Seq<char>, MemberView>| #[trigger]
            is_preferences_file(contents@, members) && json::are_readable(members)
                && !text::occurs_in(contents@, json::RESERVED_NAME@) ==> result
                == Err::<Option<String>, PreferenceError>(PreferenceError::NotJson) || is_language(
                result,
                language_in(members),
            ),
{
    match read_preferences(file) {
        Err(error) => Err(error),
        Ok(preferences) => Ok(find_language(&preferences)),
    }
}

/// Whether a language was found.
pub open spec fn is_language(
    result: Result<Option<String>, PreferenceError>,
    language: Option<Seq<char>>,
) -> bool {
    match language {
        Some(value) => result matches Ok(Some(found)) && found@ == value,
        None => result matches Ok(None),
    }
}

/// Whether a file holds some preferences.
pub open spec fn is_preferences_file(
    contents: Seq<char>,
    members: Map<Seq<char>, MemberView>,
) -> bool {
    json::is_object(contents, json::written(members))
}

/// Values with a language.
pub open spec fn with_value(values: Map<Seq<char>, JsonView>, language: Seq<char>) -> Map<
    Seq<char>,
    JsonView,
> {
    values.insert("language"@, JsonView::Text(language))
}

/// Preferences that are all texts.
pub open spec fn all_texts(members: Map<Seq<char>, MemberView>) -> bool {
    forall|name: Seq<char>| #[trigger] members.contains_key(name) ==> members[name].text is Some
}

/// The values of preferences that are all texts.
pub open spec fn text_values(members: Map<Seq<char>, MemberView>) -> Map<Seq<char>, JsonView> {
    members.map_values(|member: MemberView| JsonView::Text(member.text->0))
}

/// The preferences of a profile with a language, as they are to be written.
pub fn save_profile_language(file: Option<&str>, language: &str) -> (result: Result<
    String,
    PreferenceError,
>)
    ensures
        match preferences_in(text_of(file)) {
            Ok(members) => result matches Ok(contents) && is_preferences_file(
                contents@,
                with_text(members, language@),
            ),
            Err(error) => result == Err::<String, PreferenceError>(error),
        },
        file matches Some(contents) ==> forall|values: Map<Seq<char>, JsonView>|
            is_preferences_file(contents@, #[trigger] json::value_members(values))
                && json::are_plain(values) ==> (result matches Ok(saved) && is_preferences_file(
                saved@,
                json::value_members(with_value(values, language@)),
            )),
        preferences_in(text_of(file)) matches Ok(members) ==> (all_texts(
            with_text(members, language@),
        ) ==> (result matches Ok(saved) && is_preferences_file(
            saved@,
            json::value_members(text_values(with_text(members, language@))),
        ))),
{
    let preferences = match read_preferences(file) {
        Err(error) => return Err(error),
        Ok(preferences) => preferences,
    };
    let ghost before = json::members_of(preferences);
    let after = with_language(preferences, language);
    let contents = write_object(&after);
    proof {
        let members = with_text(before, language@);
        assert(after@.map_values(|member: Member| member.json@) =~= json::written(members));
        if all_texts(members) {
            assert(json::value_members(text_values(members)) =~= members) by {
                assert forall|name: Seq<char>| #[trigger] members.contains_key(name) implies
                    json::value_members(text_values(members))[name] == members[name] by {
                    if name != "language"@ {
                        assert(before.contains_key(name));
                    }
                }
            }
        }
        if file is Some {
            assert forall|values: Map<Seq<char>, JsonView>|
                is_preferences_file(file->0@, #[trigger] json::value_members(values))
                    && json::are_plain(values) implies is_preferences_file(
                contents@,
                json::value_members(with_value(values, language@)),
            ) by {
                lemma_value_members(values, language@);
            }
        }
    }
    Ok(contents)
}

/// A language among values is a language among the preferences that hold them.
proof fn lemma_value_members(values: Map<Seq<char>, JsonView>, language: Seq<char>)
    ensures
        json::value_members(with_value(values, language)) == with_text(
            json::value_members(values),
            language,
        ),
{
    assert(json::value_members(with_value(values, language)) =~= with_text(
        json::value_members(values),
        language,
    ));
}

/// Preferences that were read and given a language can be read again.
pub proof fn law_saved_preferences_are_readable(file: Option<Seq<char>>, language: Seq<char>)
    requires
        preferences_in(file) is Ok,
    ensures
        json::are_readable(with_text(preferences_in(file)->Ok_0, language)),
{
    let members = preferences_in(file)->Ok_0;
    assert forall|name: Seq<char>| #[trigger]
        with_text(members, language).contains_key(name) implies json::is_readable(
        with_text(members, language)[name],
    ) by {
        if name != "language"@ {
            assert(json::holds_member(file->0, name, members[name]));
        }
    }
}

/// A language that was saved among plain values is the one that is read back, and every
/// other value is read back as it was.
pub proof fn law_saved_values_are_read_back(values: Map<Seq<char>, JsonView>, language: Seq<char>)
    requires
        json::are_plain(values),
    ensures
        json::are_plain(with_value(values, language)),
        language_in(json::value_members(with_value(values, language))) == Some(language),
        forall|name: Seq<char>|
            name != "language"@ ==> (#[trigger] with_value(values, language).contains_key(name)
                == values.contains_key(name)) && (values.contains_key(name) ==> with_value(
                values,
                language,
            )[name] == values[name]),
{
    reveal_strlit("language");
    reveal_strlit("$serde_json::private::RawValue");
    assert("language"@.len() != json::RESERVED_NAME@.len());
}

/// A language that was saved is the one among the preferences, and every other
/// preference stays as it was.
pub proof fn law_saved_language_is_kept(members: Map<Seq<char>, MemberView>, language: Seq<char>)
    ensures
        language_in(with_text(members, language)) == Some(language),
        forall|name: Seq<char>|
            name != "language"@ ==> (#[trigger] with_text(members, language).contains_key(name)
                == members.contains_key(name)) && (members.contains_key(name) ==> with_text(
                members,
                language,
            )[name] == members[name]),
{
}

/// Without a file, or with one that holds no object, there is no language. A file
/// that holds no value at all is refused.
pub proof fn law_no_preferences_no_language(contents: Seq<char>)
    ensures
        preferences_in(None) matches Ok(members) && language_in(members) is None,
        json::json_members(contents) == Some(None::<Map<Seq<char>, MemberView>>) ==> (
        preferences_in(Some(contents)) matches Ok(members) && language_in(members) is None),
        json::json_members(contents) is None ==> preferences_in(Some(contents)) == Err::<
            Map<Seq<char>, MemberView>,
            PreferenceError,
        >(PreferenceError::NotJson),
{
}

/// The language of a profile is the text under its name, and nothing else that stands
/// there is one.
pub proof fn law_language_is_a_text(members: Map<Seq<char>, MemberView>)
    ensures
        language_in(members) is Some <==> members.contains_key("language"@)
            && members["language"@].text is Some,
        members.contains_key("language"@) ==> language_in(members) == members["language"@].text,
{
}

} // verus!
