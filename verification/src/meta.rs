//! Operations on document metadata objects: validation, default
//! synthesis, read-time category enrichment, the interval-task filter
//! and the baseline update.

use vstd::prelude::*;
use crate::json::{jlookup, JsonObj, JsonVal, JVal};
use crate::paths::{basename, spec_basename};
use crate::VaultError;

verus! {

broadcast use vstd::string::group_string_axioms;

/// Options accepted when a document is created.
pub struct PromptCreateOptions {
    pub doc_type: Option<String>,
    pub scheduled_time: Option<String>,
}

/// A metadata object is acceptable when it carries both an `id` and a
/// `type`.
pub open spec fn spec_meta_valid(m: Seq<(Seq<char>, JVal)>) -> bool {
    jlookup(m, "id"@) is Some && jlookup(m, "type"@) is Some
}

/// Requires `id` and `type` to be present; anything else is rejected as
/// invalid metadata.
pub fn validate_meta(m: &JsonObj) -> (r: Result<(), VaultError>)
    ensures
        r is Ok <==> spec_meta_valid(m@),
        r is Err ==> r matches Err(VaultError::InvalidMeta),
{
    if m.has("id") && m.has("type") {
        Ok(())
    } else {
        Err(VaultError::InvalidMeta)
    }
}

/// The persisted baseline of a task: `last_notified` as UNIX seconds.
/// Unset or non-integer values count as zero.
pub open spec fn spec_last_notified(m: Seq<(Seq<char>, JVal)>) -> int {
    match jlookup(m, "last_notified"@) {
        Some(JVal::Int(n)) => n,
        _ => 0,
    }
}

/// Reads the persisted baseline; unset or non-integer values count as
/// zero.
pub fn read_last_notified(m: &JsonObj) -> (r: i64)
    ensures
        r as int == spec_last_notified(m@),
{
    match m.get_i64("last_notified") {
        Some(n) => n,
        None => 0,
    }
}

/// The baseline rewrite done under the file lock: the metadata must
/// carry `id` and `type`; `last_notified` is then set to the given
/// timestamp and every other key is preserved.
pub fn update_last_notified_meta(m: &mut JsonObj, timestamp: i64) -> (r: Result<(), VaultError>)
    ensures
        r is Ok <==> spec_meta_valid(old(m)@),
        r is Err ==> (r matches Err(VaultError::InvalidMeta)) && final(m)@ == old(m)@,
        r is Ok ==> jlookup(final(m)@, "last_notified"@) == Some(JVal::Int(timestamp as int)),
        r is Ok ==> forall|k: Seq<char>|
            k != "last_notified"@ ==> #[trigger] jlookup(final(m)@, k) == jlookup(old(m)@, k),
{
    match validate_meta(m) {
        Ok(()) => {
            m.set("last_notified", JsonVal::Int(timestamp));
            Ok(())
        },
        Err(e) => Err(e),
    }
}

/// The recurrence shape the scheduler acts on: an enabled interval
/// recurrence with a positive whole number of minutes, on a task
/// document.
pub open spec fn spec_is_interval_task(m: Seq<(Seq<char>, JVal)>) -> bool {
    &&& jlookup(m, "type"@) == Some(JVal::Str("TASK"@))
    &&& match jlookup(m, "recurrence"@) {
        Some(JVal::Obj(r)) => {
            &&& jlookup(r, "enabled"@) == Some(JVal::Bool(true))
            &&& jlookup(r, "type"@) == Some(JVal::Str("interval"@))
            &&& match jlookup(r, "intervalMinutes"@) {
                Some(JVal::Int(n)) => n > 0,
                _ => false,
            }
        },
        _ => false,
    }
}

/// Whether the scheduler treats this document as an interval task.
pub fn is_interval_task(m: &JsonObj) -> (r: bool)
    ensures
        r == spec_is_interval_task(m@),
{
    let is_task = match m.get_str("type") {
        Some(t) => crate::strutil::streq(t.as_str(), "TASK"),
        None => false,
    };
    if !is_task {
        return false;
    }
    match m.get_obj("recurrence") {
        Some(rec) => {
            let enabled = match rec.get_bool("enabled") {
                Some(b) => b,
                None => false,
            };
            let is_interval = match rec.get_str("type") {
                Some(t) => crate::strutil::streq(t.as_str(), "interval"),
                None => false,
            };
            let positive = match rec.get_i64("intervalMinutes") {
                Some(n) => n > 0,
                None => false,
            };
            enabled && is_interval && positive
        },
        None => false,
    }
}

/// The minutes of the interval recurrence, when the filter accepts the
/// document.
pub open spec fn spec_interval_minutes(m: Seq<(Seq<char>, JVal)>) -> int {
    match jlookup(m, "recurrence"@) {
        Some(JVal::Obj(r)) => match jlookup(r, "intervalMinutes"@) {
            Some(JVal::Int(n)) => n,
            _ => 0,
        },
        _ => 0,
    }
}

/// Reads the interval minutes of an interval task.
pub fn interval_minutes(m: &JsonObj) -> (r: i64)
    ensures
        r as int == spec_interval_minutes(m@),
{
    match m.get_obj("recurrence") {
        Some(rec) => match rec.get_i64("intervalMinutes") {
            Some(n) => n,
            None => 0,
        },
        None => 0,
    }
}

/// The model settings a fresh document starts with.
pub open spec fn spec_default_model_config() -> Seq<(Seq<char>, JVal)> {
    seq![
        ("default_model"@, JVal::Str("gpt-4"@)),
        ("temperature"@, JVal::Num("0.7"@)),
        ("top_p"@, JVal::Num("1.0"@)),
    ]
}

fn default_model_config() -> (r: JsonObj)
    ensures
        r@ == spec_default_model_config(),
{
    let mut o = JsonObj::new();
    let mut entries: Vec<(String, JsonVal)> = Vec::new();
    entries.push((String::from_str("default_model"), JsonVal::Str(String::from_str("gpt-4"))));
    entries.push((String::from_str("temperature"), JsonVal::Num(String::from_str("0.7"))));
    entries.push((String::from_str("top_p"), JsonVal::Num(String::from_str("1.0"))));
    o.entries = entries;
    proof {
        crate::json::lemma_jv_entries_props(o.entries@);
        assert(o@ =~= spec_default_model_config());
    }
    o
}


/// Ground facts about the metadata key literals: their lengths and
/// leading characters. Enough to tell any two of them apart.
pub proof fn lemma_meta_keys_distinct()
    ensures
        "id"@.len() == 2 && "id"@[0] == 'i',
        "title"@.len() == 5 && "title"@[0] == 't' && "title"@[1] == 'i',
        "slug"@.len() == 4 && "slug"@[0] == 's',
        "created_at"@.len() == 10 && "created_at"@[0] == 'c',
        "updated_at"@.len() == 10 && "updated_at"@[0] == 'u',
        "tags"@.len() == 4 && "tags"@[0] == 't' && "tags"@[1] == 'a',
        "version"@.len() == 7 && "version"@[0] == 'v',
        "author"@.len() == 6 && "author"@[0] == 'a',
        "model_config"@.len() == 12 && "model_config"@[0] == 'm',
        "is_favorite"@.len() == 11 && "is_favorite"@[0] == 'i',
        "is_pinned"@.len() == 9 && "is_pinned"@[0] == 'i',
        "type"@.len() == 4 && "type"@[0] == 't' && "type"@[1] == 'y',
        "scheduled_time"@.len() == 14 && "scheduled_time"@[0] == 's',
        "category_path"@.len() == 13 && "category_path"@[0] == 'c',
        "category"@.len() == 8 && "category"@[0] == 'c' && "category"@[1] == 'a',
        "recurrence"@.len() == 10 && "recurrence"@[0] == 'r',
        "last_notified"@.len() == 13 && "last_notified"@[0] == 'l',
        "original_path"@.len() == 13 && "original_path"@[0] == 'o',
        "content"@.len() == 7 && "content"@[0] == 'c' && "content"@[1] == 'o',
{
    reveal_strlit("id");
    reveal_strlit("title");
    reveal_strlit("slug");
    reveal_strlit("created_at");
    reveal_strlit("updated_at");
    reveal_strlit("tags");
    reveal_strlit("version");
    reveal_strlit("author");
    reveal_strlit("model_config");
    reveal_strlit("is_favorite");
    reveal_strlit("is_pinned");
    reveal_strlit("type");
    reveal_strlit("scheduled_time");
    reveal_strlit("category_path");
    reveal_strlit("category");
    reveal_strlit("recurrence");
    reveal_strlit("last_notified");
    reveal_strlit("original_path");
    reveal_strlit("content");
}

/// The metadata a fresh document is written with: the given identity,
/// title and slug, both timestamps set to `now`, empty tags, a fixed
/// version, author and model configuration, both flags off, the chosen
/// type, the optional scheduled time, and the category when one is
/// given. No recurrence, baseline or trash marker is present.
#[verifier::rlimit(50)]
pub fn default_meta_map(
    title: &str,
    slug: &str,
    category_path: &str,
    options: &PromptCreateOptions,
    id: &str,
    now: &str,
) -> (r: JsonObj)
    ensures
        jlookup(r@, "id"@) == Some(JVal::Str(id@)),
        jlookup(r@, "title"@) == Some(JVal::Str(title@)),
        jlookup(r@, "slug"@) == Some(JVal::Str(slug@)),
        jlookup(r@, "created_at"@) == Some(JVal::Str(now@)),
        jlookup(r@, "updated_at"@) == Some(JVal::Str(now@)),
        jlookup(r@, "tags"@) == Some(JVal::Arr(Seq::empty())),
        jlookup(r@, "version"@) == Some(JVal::Str("1.0.0"@)),
        jlookup(r@, "author"@) == Some(JVal::Str("User"@)),
        jlookup(r@, "model_config"@) == Some(JVal::Obj(spec_default_model_config())),
        jlookup(r@, "is_favorite"@) == Some(JVal::Bool(false)),
        jlookup(r@, "is_pinned"@) == Some(JVal::Bool(false)),
        jlookup(r@, "type"@) == Some(
            JVal::Str(
                match options.doc_type {
                    Some(t) => t@,
                    None => "NOTE"@,
                },
            ),
        ),
        jlookup(r@, "scheduled_time"@) == (match options.scheduled_time {
            Some(s) => Some(JVal::Str(s@)),
            None => None::<JVal>,
        }),
        jlookup(r@, "category_path"@) == (if category_path@.len() > 0 {
            Some(JVal::Str(category_path@))
        } else {
            None::<JVal>
        }),
        jlookup(r@, "category"@) == (if category_path@.len() > 0 && spec_basename(
            category_path@,
        ).len() > 0 {
            Some(JVal::Str(spec_basename(category_path@)))
        } else {
            None::<JVal>
        }),
        jlookup(r@, "recurrence"@) is None,
        jlookup(r@, "last_notified"@) is None,
        jlookup(r@, "original_path"@) is None,
        jlookup(r@, "content"@) is None,
{
    proof {
        lemma_meta_keys_distinct();
    }
    let mut m = JsonObj::new();
    m.set("id", JsonVal::Str(id.to_owned()));
    m.set("title", JsonVal::Str(title.to_owned()));
    m.set("slug", JsonVal::Str(slug.to_owned()));
    m.set("created_at", JsonVal::Str(now.to_owned()));
    m.set("updated_at", JsonVal::Str(now.to_owned()));
    let tags: Vec<JsonVal> = Vec::new();
    m.set("tags", JsonVal::Arr(tags));
    m.set("version", JsonVal::Str(String::from_str("1.0.0")));
    m.set("author", JsonVal::Str(String::from_str("User")));
    m.set("model_config", JsonVal::Obj(default_model_config()));
    m.set("is_favorite", JsonVal::Bool(false));
    m.set("is_pinned", JsonVal::Bool(false));
    let doc_type = match &options.doc_type {
        Some(t) => t.clone(),
        None => String::from_str("NOTE"),
    };
    m.set("type", JsonVal::Str(doc_type));
    match &options.scheduled_time {
        Some(s) => {
            m.set("scheduled_time", JsonVal::Str(s.clone()));
        },
        None => {},
    }
    let has_category = crate::strutil::chars_vec(category_path).len() > 0;
    if has_category {
        m.set("category_path", JsonVal::Str(category_path.to_owned()));
        let name = basename(category_path);
        let name_chars = crate::strutil::chars_vec(name.as_str());
        if name_chars.len() > 0 {
            m.set("category", JsonVal::Str(name));
        }
    }
    m
}

/// Read-time enrichment: when the metadata lacks `category_path` it is
/// filled from the directory the document sits in, and when it lacks
/// `category` and the directory has a name, that name is filled in.
/// Nothing else changes, and nothing is persisted.
pub fn enrich_category(m: &mut JsonObj, category_path: &str)
    ensures
        jlookup(final(m)@, "category_path"@) == (if jlookup(old(m)@, "category_path"@) is Some {
            jlookup(old(m)@, "category_path"@)
        } else {
            Some(JVal::Str(category_path@))
        }),
        jlookup(final(m)@, "category"@) == (if jlookup(old(m)@, "category"@) is Some {
            jlookup(old(m)@, "category"@)
        } else if spec_basename(category_path@).len() > 0 {
            Some(JVal::Str(spec_basename(category_path@)))
        } else {
            jlookup(old(m)@, "category"@)
        }),
        forall|k: Seq<char>|
            k != "category_path"@ && k != "category"@ ==> #[trigger] jlookup(final(m)@, k)
                == jlookup(old(m)@, k),
{
    if !m.has("category_path") {
        m.set("category_path", JsonVal::Str(category_path.to_owned()));
    }
    if !m.has("category") {
        let name = basename(category_path);
        let name_chars = crate::strutil::chars_vec(name.as_str());
        if name_chars.len() > 0 {
            m.set("category", JsonVal::Str(name));
        }
    }
    proof {
        lemma_meta_keys_distinct();
    }
}

} // verus!

