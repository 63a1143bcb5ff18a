//! The settings file: a JSON object that remembers, among what others may
//! keep in it, which files to load whole without asking.
use vstd::prelude::*;
use crate::text::{add_text, texts, texts_with};

verus! {

/// The member that lists the files to load whole.
pub open spec fn direct_key() -> Seq<char> {
    "direct_files"@
}

// --- JSON -----------------------------------------------------------------------------

/// A JSON value, opaque here.
#[verifier::external_type_specification]
#[verifier::external_body]
pub struct ExValue(serde_json::Value);

/// The members of a JSON object.
#[verifier::external_type_specification]
#[verifier::external_body]
#[verifier::reject_recursive_types(K)]
#[verifier::reject_recursive_types(V)]
pub struct ExMap<K, V>(serde_json::Map<K, V>);

/// What an object holds: the compact text of each member's value.
pub uninterp spec fn members(m: serde_json::Map<String, serde_json::Value>) -> Map<Seq<char>, Seq<char>>;

/// What a text is, read as JSON: none at all, and why; `null`; the members of
/// an object; or another value.
pub enum Json {
    Broken(Seq<char>),
    Null,
    Object(Map<Seq<char>, Seq<char>>),
    Other,
}

/// What `serde_json::from_str` reads in a text, or says of it.
pub uninterp spec fn json_of(text: Seq<char>) -> Json;

/// The strings `serde_json::from_str` reads in a text that is a list of
/// strings.
pub uninterp spec fn json_strings(text: Seq<char>) -> Option<Seq<Seq<char>>>;

/// The compact text of the list of strings that `serde_json::Value::from`
/// makes.
pub uninterp spec fn json_list(v: Seq<Seq<char>>) -> Seq<char>;

/// A value's text can stand inside another value: it is JSON, and not nested
/// too deeply to be read there.
pub open spec fn embeds(value: Seq<char>) -> bool {
    !(json_of("["@ + value + "]"@) is Broken)
}

/// Every member can be written and read again.
pub open spec fn writable(m: Map<Seq<char>, Seq<char>>) -> bool {
    forall|k: Seq<char>| #[trigger] m.contains_key(k) ==> embeds(m[k])
}

/// A text read as JSON.
pub enum Parsed {
    /// No JSON, and why.
    Broken(String),
    Null,
    Object(serde_json::Map<String, serde_json::Value>),
    Other,
}

/// `serde_json::from_str` into a `Value`: what a text holds, or what is wrong
/// with it. The members of an
/// object that was read can each stand inside another value.
#[verifier::external_body]
pub(crate) fn parse(text: &str) -> (r: Parsed)
    ensures
        match r {
            Parsed::Broken(e) => json_of(text@) == Json::Broken(e@),
            Parsed::Null => json_of(text@) == Json::Null,
            Parsed::Object(m) => json_of(text@) == Json::Object(members(m)) && writable(members(m)),
            Parsed::Other => json_of(text@) == Json::Other,
        },
{
    match serde_json::from_str::<serde_json::Value>(text) {
        Err(e) => Parsed::Broken(e.to_string()),
        Ok(serde_json::Value::Null) => Parsed::Null,
        Ok(serde_json::Value::Object(m)) => Parsed::Object(m),
        Ok(_) => Parsed::Other,
    }
}

/// `serde_json::Map::new`: an object without members.
#[verifier::external_body]
pub(crate) fn empty_object() -> (r: serde_json::Map<String, serde_json::Value>)
    ensures
        members(r).is_empty(),
{
    serde_json::Map::new()
}

/// `serde_json::Map::get`: the compact text of a member's value, where there
/// is such a member.
#[verifier::external_body]
pub(crate) fn member_text(m: &serde_json::Map<String, serde_json::Value>, key: &str) -> (r: Option<String>)
    ensures
        match r {
            Some(t) => members(*m).contains_key(key@) && t@ == members(*m)[key@],
            None => !members(*m).contains_key(key@),
        },
{
    m.get(key).map(|v| v.to_string())
}

/// `serde_json::from_str` into a list of strings: what a text lists, nothing
/// where it is no such list.
#[verifier::external_body]
pub(crate) fn parse_strings(text: &str) -> (r: Option<Vec<String>>)
    ensures
        match r {
            Some(v) => json_strings(text@) == Some(texts(v@)),
            None => json_strings(text@) is None,
        },
{
    serde_json::from_str(text).ok()
}

/// `serde_json::Map::insert` of a list of strings: the member now holds that
/// list, whose text reads back as the same strings; the others stay.
#[verifier::external_body]
pub(crate) fn set_strings(m: &mut serde_json::Map<String, serde_json::Value>, key: &str, v: &Vec<String>)
    ensures
        members(*final(m)) == members(*old(m)).insert(key@, json_list(texts(v@))),
        json_strings(members(*final(m))[key@]) == Some(texts(v@)),
        embeds(members(*final(m))[key@]),
{
    m.insert(key.to_owned(), serde_json::Value::from(v.clone()));
}

/// `serde_json::to_string_pretty`: the text of an object, which reads back as
/// the same members where each of them can be written. An object with text
/// keys always has one.
#[verifier::external_body]
pub(crate) fn print(m: &serde_json::Map<String, serde_json::Value>) -> (r: Option<String>)
    ensures
        r is Some,
        r matches Some(t) ==> writable(members(*m)) ==> json_of(t@) == Json::Object(members(*m)),
{
    serde_json::to_string_pretty(m).ok()
}

// --- collection documents -----------------------------------------------------------------

/// The collection document a text holds: an object. Anything else is refused,
/// a text that is no JSON with what is wrong with it.
pub fn read_collection(text: &str) -> (r: Result<
    serde_json::Map<String, serde_json::Value>,
    String,
>)
    ensures
        match r {
            Ok(m) => json_of(text@) == Json::Object(members(m)) && writable(members(m)),
            Err(e) => match json_of(text@) {
                Json::Broken(why) => e@ == why,
                Json::Object(_) => false,
                _ => e@ == "collection.json is not an object"@,
            },
        },
{
    match parse(text) {
        Parsed::Object(m) => Ok(m),
        Parsed::Broken(e) => Err(e),
        _ => Err("collection.json is not an object".to_owned()),
    }
}

/// The text of a collection document, which reads back as the same members.
pub fn collection_text(m: &serde_json::Map<String, serde_json::Value>) -> (r: Option<String>)
    ensures
        r is Some,
        writable(members(*m)) ==> json_of(r->0@) == Json::Object(members(*m)),
{
    print(m)
}

// --- the files to load whole -------------------------------------------------------------

/// The files a settings text lists; none where there is no text, or it is not
/// of the right form.
pub open spec fn listed_files(text: Option<Seq<char>>) -> Seq<Seq<char>> {
    match text {
        Some(t) => match json_of(t) {
            Json::Object(m) => if m.contains_key(direct_key()) {
                match json_strings(m[direct_key()]) {
                    Some(v) => v,
                    None => Seq::empty(),
                }
            } else {
                Seq::empty()
            },
            _ => Seq::empty(),
        },
        None => Seq::empty(),
    }
}

/// A list without repeats: each text where it comes first.
pub open spec fn each_once(s: Seq<Seq<char>>) -> Seq<Seq<char>>
    decreases s.len(),
{
    if s.len() == 0 {
        Seq::empty()
    } else {
        texts_with(each_once(s.drop_last()), s.last())
    }
}

/// The list a settings text holds.
fn read_list(text: Option<&str>) -> (r: Vec<String>)
    ensures
        texts(r@) == listed_files(
            match text {
                Some(t) => Some(t@),
                None => None,
            },
        ),
{
    let mut none: Vec<String> = Vec::new();
    assert(texts(none@) =~= Seq::empty());
    if let Some(t) = text {
        if let Parsed::Object(m) = parse(t) {
            if let Some(list) = member_text(&m, "direct_files") {
                if let Some(v) = parse_strings(list.as_str()) {
                    return v;
                }
            }
        }
    }
    none
}

/// The files the settings list, each once.
pub fn load_direct_files(text: Option<&str>) -> (r: Vec<String>)
    ensures
        texts(r@) == each_once(
            listed_files(
                match text {
                    Some(t) => Some(t@),
                    None => None,
                },
            ),
        ),
{
    let all = read_list(text);
    let ghost listed = texts(all@);
    let mut out: Vec<String> = Vec::new();
    let mut i: usize = 0;
    assert(texts(out@) =~= each_once(listed.take(0)));
    while i < all.len()
        invariant
            i <= all@.len(),
            listed == texts(all@),
            texts(out@) == each_once(listed.take(i as int)),
        decreases all@.len() - i,
    {
        assert(listed.take(i + 1).drop_last() =~= listed.take(i as int));
        assert(listed.take(i + 1).last() == all@[i as int]@);
        add_text(&mut out, all[i].as_str().to_owned());
        i += 1;
    }
    assert(listed.take(i as int) =~= listed);
    out
}

/// Files that were remembered are read back: a list without repeats stays as
/// it is.
pub proof fn a_list_without_repeats_is_read_back(files: Seq<Seq<char>>)
    requires
        files.no_duplicates(),
    ensures
        each_once(files) == files,
    decreases files.len(),
{
    if files.len() > 0 {
        let before = files.drop_last();
        a_list_without_repeats_is_read_back(before);
        if before.contains(files.last()) {
            let k = choose|k: int| 0 <= k < before.len() && before[k] == files.last();
            assert(files[k] == files[files.len() - 1]);
        }
        assert(before.push(files.last()) =~= files);
    } else {
        assert(each_once(files) =~= files);
    }
}

/// The settings as they are, before a change: an unreadable file and a `null`
/// count as empty. Nothing where they hold something that has no members.
pub open spec fn settings_before(text: Option<Seq<char>>) -> Option<Map<Seq<char>, Seq<char>>> {
    match text {
        Some(t) => match json_of(t) {
            Json::Object(m) => Some(m),
            Json::Other => None,
            _ => Some(Map::empty()),
        },
        None => Some(Map::empty()),
    }
}

/// What saving leads to.
#[derive(Debug)]
pub enum SavedSettings {
    /// Write this text.
    Text(String),
    /// The file holds something that has no members.
    NotAnObject,
}

/// The text of the settings with these files listed; what else they hold is
/// kept.
pub fn save_direct_files(text: Option<&str>, files: &Vec<String>) -> (r: SavedSettings)
    ensures
        ({
            let before = settings_before(
                match text {
                    Some(t) => Some(t@),
                    None => None,
                },
            );
            match r {
                SavedSettings::Text(t) => before is Some && json_of(t@) == Json::Object(
                    before->0.insert(direct_key(), json_list(texts(files@))),
                ) && listed_files(Some(t@)) == texts(files@),
                SavedSettings::NotAnObject => before is None,
            }
        }),
{
    let mut root = match text {
        Some(t) => match parse(t) {
            Parsed::Object(m) => m,
            Parsed::Broken(_) => empty_object(),
            Parsed::Null => empty_object(),
            Parsed::Other => return SavedSettings::NotAnObject,
        },
        None => empty_object(),
    };
    let ghost before = members(root);
    assert(before =~= settings_before(
        match text {
            Some(t) => Some(t@),
            None => None,
        },
    )->0);
    set_strings(&mut root, "direct_files", files);
    assert(writable(members(root))) by {
        assert forall|k: Seq<char>| #[trigger] members(root).contains_key(k) implies embeds(
            members(root)[k],
        ) by {
            if k != direct_key() {
                assert(before.contains_key(k));
            }
        }
    }
    match print(&root) {
        Some(t) => SavedSettings::Text(t),
        None => SavedSettings::NotAnObject,
    }
}

/// Saving the files to load whole changes no other setting.
pub proof fn other_settings_are_kept(before: Map<Seq<char>, Seq<char>>, files: Seq<Seq<char>>, k: Seq<char>)
    requires
        k != direct_key(),
    ensures
        before.insert(direct_key(), json_list(files)).contains_key(k) == before.contains_key(k),
        before.contains_key(k) ==> before.insert(direct_key(), json_list(files))[k] == before[k],
{
}

/// A list read without repeats has every text once, and no other, in the order
/// they come first.
pub proof fn every_text_is_read_once(s: Seq<Seq<char>>)
    ensures
        each_once(s).no_duplicates(),
        forall|t: Seq<char>| #[trigger] each_once(s).contains(t) <==> s.contains(t),
        s.len() > 0 ==> each_once(s.drop_last()).is_prefix_of(each_once(s)),
    decreases s.len(),
{
    if s.len() > 0 {
        let init = s.drop_last();
        every_text_is_read_once(init);
        let before = each_once(init);
        let after = each_once(s);
        crate::text::inserted_contains(before, before.len() as int, s.last());
        assert(before.insert(before.len() as int, s.last()) =~= before.push(s.last()));
        assert(after.subrange(0, before.len() as int) =~= before);
        assert forall|t: Seq<char>| #[trigger] after.contains(t) <==> s.contains(t) by {
            if s.contains(t) {
                let k = s.index_of(t);
                if k < init.len() {
                    assert(init[k] == t);
                    assert(init.contains(t));
                }
            }
            if init.contains(t) {
                let k = init.index_of(t);
                assert(s[k] == t);
            }
            assert(s[s.len() - 1] == s.last());
        }
    }
}

/// The files to load whole are listed under their own member, and only there;
/// settings without it, or that cannot be read, list none.
pub proof fn files_are_listed_under_their_member(text: Seq<char>, m: Map<Seq<char>, Seq<char>>)
    requires
        json_of(text) == Json::Object(m),
    ensures
        !m.contains_key("direct_files"@) ==> listed_files(Some(text)).len() == 0,
        m.contains_key("direct_files"@) && json_strings(m["direct_files"@]) is Some ==> listed_files(
            Some(text),
        ) == json_strings(m["direct_files"@])->0,
        m.contains_key("direct_files"@) && json_strings(m["direct_files"@]) is None ==> listed_files(
            Some(text),
        ).len() == 0,
        listed_files(None).len() == 0,
        settings_before(Some(text)) == Some(m),
{
}

/// Settings that are no object are left alone; none at all, unreadable ones and
/// `null` are started anew.
pub proof fn settings_without_members_are_left_alone(text: Seq<char>)
    ensures
        settings_before(Some(text)) is None <==> json_of(text) is Other,
        json_of(text) is Broken || json_of(text) is Null ==> settings_before(Some(text)) == Some(
            Map::<Seq<char>, Seq<char>>::empty(),
        ),
        settings_before(None) == Some(Map::<Seq<char>, Seq<char>>::empty()),
{
}

} // verus!
