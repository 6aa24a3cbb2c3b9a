//! The vault operation cores: creating, saving, trashing and restoring
//! documents, and managing category directories. Each operation decides
//! and describes the filesystem effect; the host carries it out with
//! atomic writes.

use vstd::prelude::*;
use crate::bridge::{base64_decoded, base64_decode, new_uuid, now_millis, now_rfc3339};
use crate::json::{jlookup, JsonObj, JsonVal, JVal};
use crate::meta::{default_meta_map, lemma_meta_keys_distinct, PromptCreateOptions};
use crate::naming::{fresh_numbered, spec_numbered, spec_numbered_taken};
use crate::paths::{
    basename, ensure_within_root, join_path, parent_path, resolve_path, spec_basename, spec_join,
    spec_parent, spec_resolve,
};
use crate::scanner::PromptData;
use crate::slug::{spec_slug, title_to_slug};
use crate::strutil::{
    chars_vec, concat_str, dec_str, find_first_sub, is_prefix_of, string_from_chars,
    vec_contains_str,
};
use crate::VaultError;
use crate::VaultState;

verus! {

/// The vault root path.
pub fn get_vault_root(state: &VaultState) -> (r: String)
    ensures
        r@ == state.0@,
{
    state.0.clone()
}

/// A directory path for a new document: the category joined with the
/// slug when that name is free, else the first numbered suffix, from
/// two upwards, whose name is free. The result collides with none of
/// the existing paths.
pub fn fresh_doc_path(category_abs: &str, slug: &str, existing_dirs: &Vec<String>) -> (r: String)
    requires
        existing_dirs@.len() + 3 <= u64::MAX,
    ensures
        forall|j: int| 0 <= j < existing_dirs@.len() ==> (#[trigger] existing_dirs@[j])@ != r@,
        (forall|j: int|
            0 <= j < existing_dirs@.len() ==> (#[trigger] existing_dirs@[j])@ != spec_join(
                category_abs@,
                slug@,
            )) ==> r@ == spec_join(category_abs@, slug@),
        r@ == spec_join(category_abs@, slug@) || exists|n: int|
            n >= 2 && r@ == spec_numbered(
                spec_join(category_abs@, slug@) + seq!['_'],
                n,
                Seq::empty(),
            ) && (forall|m: int|
                2 <= m < n ==> #[trigger] spec_numbered_taken(
                    existing_dirs@,
                    spec_join(category_abs@, slug@) + seq!['_'],
                    m,
                    Seq::empty(),
                )),
{
    let base = join_path(category_abs, slug);
    if !vec_contains_str(existing_dirs, base.as_str()) {
        return base;
    }
    let stem = concat_str(base.as_str(), "_");
    proof {
        reveal_strlit("_");
        assert(stem@ =~= spec_join(category_abs@, slug@) + seq!['_']);
    }
    let (cand, n) = fresh_numbered(stem.as_str(), "", 2, existing_dirs);
    proof {
        reveal_strlit("");
        assert(""@ =~= Seq::<char>::empty());
    }
    cand
}

/// What a document creation decided: where the document goes and what
/// it is written with.
pub struct CreatePlan {
    pub category_abs: String,
    pub prompt: PromptData,
}

/// Creates a document: the category is resolved under the root and
/// must sit within it; the directory is the slug of the title when
/// that name is free, else the first free numbered suffix; the
/// metadata is the default synthesis around a fresh identifier, and
/// the body starts empty.
pub fn create_prompt(
    state: &VaultState,
    category_path: &str,
    title: &str,
    options: Option<PromptCreateOptions>,
    existing_dirs: &Vec<String>,
) -> (r: Result<CreatePlan, VaultError>)
    requires
        existing_dirs@.len() + 3 <= u64::MAX,
    ensures
        r is Ok <==> is_prefix_of(state.0@, spec_resolve(state.0@, category_path@)),
        r is Err ==> r matches Err(VaultError::InvalidPath),
        r matches Ok(p) ==> {
            let cat = spec_resolve(state.0@, category_path@);
            &&& p.category_abs@ == cat
            &&& (forall|j: int|
                0 <= j < existing_dirs@.len() ==> (#[trigger] existing_dirs@[j])@
                    != p.prompt.path@)
            &&& ((forall|j: int|
                0 <= j < existing_dirs@.len() ==> (#[trigger] existing_dirs@[j])@ != spec_join(
                    cat,
                    spec_slug(title@),
                )) ==> p.prompt.path@ == spec_join(cat, spec_slug(title@)))
            &&& (p.prompt.path@ == spec_join(cat, spec_slug(title@)) || exists|n: int|
                n >= 2 && p.prompt.path@ == spec_numbered(
                    spec_join(cat, spec_slug(title@)) + seq!['_'],
                    n,
                    Seq::empty(),
                ) && (forall|m: int|
                    2 <= m < n ==> #[trigger] spec_numbered_taken(
                        existing_dirs@,
                        spec_join(cat, spec_slug(title@)) + seq!['_'],
                        m,
                        Seq::empty(),
                    )))
            &&& p.prompt.content@ == Seq::<char>::empty()
            &&& jlookup(p.prompt.meta@, "title"@) == Some(JVal::Str(title@))
            &&& jlookup(p.prompt.meta@, "slug"@) == Some(JVal::Str(spec_slug(title@)))
            &&& (jlookup(p.prompt.meta@, "id"@) matches Some(JVal::Str(u)) && u.len() == 36)
            &&& jlookup(p.prompt.meta@, "created_at"@) == jlookup(p.prompt.meta@, "updated_at"@)
            &&& jlookup(p.prompt.meta@, "type"@) == Some(
                JVal::Str(
                    match options {
                        Some(o) => match o.doc_type {
                            Some(t) => t@,
                            None => "NOTE"@,
                        },
                        None => "NOTE"@,
                    },
                ),
            )
            &&& jlookup(p.prompt.meta@, "scheduled_time"@) == (match options {
                Some(o) => match o.scheduled_time {
                    Some(st) => Some(JVal::Str(st@)),
                    None => None::<JVal>,
                },
                None => None::<JVal>,
            })
            &&& jlookup(p.prompt.meta@, "tags"@) == Some(JVal::Arr(Seq::empty()))
            &&& jlookup(p.prompt.meta@, "version"@) == Some(JVal::Str("1.0.0"@))
            &&& jlookup(p.prompt.meta@, "author"@) == Some(JVal::Str("User"@))
            &&& jlookup(p.prompt.meta@, "model_config"@) == Some(
                JVal::Obj(crate::meta::spec_default_model_config()),
            )
            &&& jlookup(p.prompt.meta@, "is_favorite"@) == Some(JVal::Bool(false))
            &&& jlookup(p.prompt.meta@, "is_pinned"@) == Some(JVal::Bool(false))
            &&& jlookup(p.prompt.meta@, "category_path"@) == (if cat.len() > 0 {
                Some(JVal::Str(cat))
            } else {
                None::<JVal>
            })
            &&& jlookup(p.prompt.meta@, "category"@) == (if cat.len() > 0 && spec_basename(
                cat,
            ).len() > 0 {
                Some(JVal::Str(spec_basename(cat)))
            } else {
                None::<JVal>
            })
            &&& jlookup(p.prompt.meta@, "recurrence"@) is None
            &&& jlookup(p.prompt.meta@, "last_notified"@) is None
            &&& jlookup(p.prompt.meta@, "original_path"@) is None
        },
{
    let root = state.0.as_str();
    let category_abs = resolve_path(root, category_path);
    match ensure_within_root(category_abs.as_str(), root) {
        Ok(()) => {},
        Err(e) => {
            return Err(e);
        },
    }
    let opts = match options {
        Some(o) => o,
        None => PromptCreateOptions { doc_type: None, scheduled_time: None },
    };
    let slug = title_to_slug(title);
    let prompt_path = fresh_doc_path(category_abs.as_str(), slug.as_str(), existing_dirs);
    let id = new_uuid();
    let now = now_rfc3339();
    let meta = default_meta_map(
        title,
        slug.as_str(),
        category_abs.as_str(),
        &opts,
        id.as_str(),
        now.as_str(),
    );
    let prompt = PromptData { meta, content: String::new(), path: prompt_path };
    Ok(CreatePlan { category_abs, prompt })
}

/// What a soft delete decided: the move into the trash, and the
/// metadata rewrite that records where the document came from.
pub struct TrashPlan {
    pub resolved: String,
    pub target: String,
    pub meta: Option<JsonObj>,
}

/// Deletes a document. A permanent delete resolves and checks the path
/// and leaves the removal to the host. A soft delete records the
/// resolved path as `original_path` in the metadata, when the document
/// has any, and moves the directory to a timestamped name under the
/// trash.
pub fn delete_prompt(state: &VaultState, prompt_path: &str, permanent: Option<bool>, meta: Option<
    JsonObj,
>) -> (r: Result<Option<TrashPlan>, VaultError>)
    ensures
        r is Ok <==> is_prefix_of(state.0@, spec_resolve(state.0@, prompt_path@)),
        r is Err ==> r matches Err(VaultError::InvalidPath),
        r matches Ok(Some(p)) ==> {
            let resolved = spec_resolve(state.0@, prompt_path@);
            let trash = spec_join(state.0@, "trash"@);
            &&& p.resolved@ == resolved
            &&& (exists|m: int|
                p.target@ == spec_join(
                    trash,
                    spec_basename(resolved) + seq!['_'] + dec_str(m),
                ))
            &&& match (p.meta, meta) {
                (Some(updated), Some(orig)) => jlookup(updated@, "original_path"@) == Some(
                    JVal::Str(resolved),
                ) && (forall|k: Seq<char>|
                    k != "original_path"@ ==> #[trigger] jlookup(updated@, k) == jlookup(
                        orig@,
                        k,
                    )),
                (None, None) => true,
                _ => false,
            }
        },
        r matches Ok(None) ==> permanent == Some(true),
        (r is Ok && permanent == Some(true)) ==> r matches Ok(None),
{
    let root = state.0.as_str();
    let resolved = resolve_path(root, prompt_path);
    match ensure_within_root(resolved.as_str(), root) {
        Ok(()) => {},
        Err(e) => {
            return Err(e);
        },
    }
    let is_permanent = match permanent {
        Some(b) => b,
        None => false,
    };
    if is_permanent {
        return Ok(None);
    }
    let updated_meta = match meta {
        Some(mut m) => {
            m.set("original_path", JsonVal::Str(resolved.clone()));
            proof {
                lemma_meta_keys_distinct();
            }
            Some(m)
        },
        None => None,
    };
    let name = basename(resolved.as_str());
    let millis = now_millis();
    let ms: u64 = if millis >= 0 {
        millis as u64
    } else {
        0
    };
    let stamp = crate::strutil::u64_to_string(ms);
    let with_sep = concat_str(name.as_str(), "_");
    let target_name = concat_str(with_sep.as_str(), stamp.as_str());
    let trash_path = join_path(root, "trash");
    let target = join_path(trash_path.as_str(), target_name.as_str());
    proof {
        reveal_strlit("_");
        reveal_strlit("trash");
        assert(target_name@ =~= spec_basename(resolved@) + seq!['_'] + dec_str(ms as int));
    }
    Ok(Some(TrashPlan { resolved, target, meta: updated_meta }))
}

/// What a restore decided: the move back out of the trash, and the
/// metadata it is rewritten with at the new location.
pub struct RestorePlan {
    pub resolved: String,
    pub target: String,
    pub meta: JsonObj,
}

/// The place a trashed document goes back to: the recorded
/// `original_path` resolved under the root, or a `Restored` directory
/// under the root when none was recorded.
pub open spec fn spec_restore_target(
    root: Seq<char>,
    meta: Seq<(Seq<char>, JVal)>,
) -> Seq<char> {
    match jlookup(meta, "original_path"@) {
        Some(JVal::Str(orig)) => spec_resolve(root, orig),
        _ => spec_join(root, "Restored"@),
    }
}

/// Restores a trashed document: the target is the recorded
/// `original_path`, or a `Restored` directory under the root when none
/// was recorded; source and target must both sit within the vault;
/// the marker is removed from the metadata and the target recorded as
/// its category path; when the target already exists, a timestamped
/// sibling name is used instead.
pub fn restore_prompt(
    state: &VaultState,
    prompt_path: &str,
    meta: JsonObj,
    target_exists: bool,
) -> (r: Result<RestorePlan, VaultError>)
    ensures
        r is Ok <==> is_prefix_of(state.0@, spec_resolve(state.0@, prompt_path@))
            && is_prefix_of(state.0@, spec_restore_target(state.0@, meta@)),
        r is Err ==> r matches Err(VaultError::InvalidPath),
        r matches Ok(p) ==> {
            let resolved = spec_resolve(state.0@, prompt_path@);
            let target0 = spec_restore_target(state.0@, meta@);
            &&& p.resolved@ == resolved
            &&& is_prefix_of(state.0@, target0)
            &&& jlookup(p.meta@, "original_path"@) is None
            &&& jlookup(p.meta@, "category_path"@) == Some(JVal::Str(target0))
            &&& (forall|k: Seq<char>|
                k != "original_path"@ && k != "category_path"@ ==> #[trigger] jlookup(p.meta@, k)
                    == jlookup(meta@, k))
            &&& (!target_exists ==> p.target@ == target0)
            &&& (target_exists ==> exists|m: int|
                p.target@ == spec_join(
                    spec_parent(target0),
                    spec_basename(target0) + "_restored_"@ + dec_str(m),
                ))
        },
{
    let root = state.0.as_str();
    let resolved = resolve_path(root, prompt_path);
    match ensure_within_root(resolved.as_str(), root) {
        Ok(()) => {},
        Err(e) => {
            return Err(e);
        },
    }
    let mut m = meta;
    let target0: String = match m.get_str("original_path") {
        Some(orig) => {
            let o = orig.clone();
            resolve_path(root, o.as_str())
        },
        None => join_path(root, "Restored"),
    };
    proof {
        reveal_strlit("Restored");
        reveal_strlit("original_path");
    }
    match ensure_within_root(target0.as_str(), root) {
        Ok(()) => {},
        Err(e) => {
            return Err(e);
        },
    }
    m.remove_key("original_path");
    m.set("category_path", JsonVal::Str(target0.clone()));
    proof {
        lemma_meta_keys_distinct();
    }
    let target: String = if target_exists {
        let name = basename(target0.as_str());
        let millis = now_millis();
        let ms: u64 = if millis >= 0 {
            millis as u64
        } else {
            0
        };
        let stamp = crate::strutil::u64_to_string(ms);
        let with_marker = concat_str(name.as_str(), "_restored_");
        let full_name = concat_str(with_marker.as_str(), stamp.as_str());
        let parent = parent_path(target0.as_str());
        let t = join_path(parent.as_str(), full_name.as_str());
        proof {
            reveal_strlit("_restored_");
            assert(full_name@ =~= spec_basename(target0@) + "_restored_"@ + dec_str(ms as int));
        }
        t
    } else {
        target0.clone()
    };
    Ok(RestorePlan { resolved, target, meta: m })
}

/// Creates a category directory under a parent: the parent must sit
/// within the vault, and an existing target is a conflict.
pub fn create_category(state: &VaultState, parent_path: &str, name: &str, target_exists: bool) -> (
    r: Result<String, VaultError>)
    ensures
        r is Ok <==> is_prefix_of(state.0@, spec_resolve(state.0@, parent_path@))
            && !target_exists,
        r matches Ok(p) ==> p@ == spec_join(spec_resolve(state.0@, parent_path@), name@),
        r is Err ==> (r matches Err(VaultError::InvalidPath) && !is_prefix_of(
            state.0@,
            spec_resolve(state.0@, parent_path@),
        )) || (r matches Err(VaultError::Conflict) && target_exists),
{
    let root = state.0.as_str();
    let parent_abs = resolve_path(root, parent_path);
    match ensure_within_root(parent_abs.as_str(), root) {
        Ok(()) => {},
        Err(e) => {
            return Err(e);
        },
    }
    if target_exists {
        return Err(VaultError::Conflict);
    }
    Ok(join_path(parent_abs.as_str(), name))
}

/// Renames a category in place: the new path keeps the parent. A
/// category path without a parent cannot be renamed.
pub fn rename_category(state: &VaultState, category_path: &str, new_name: &str) -> (r: Result<
    (String, String),
    VaultError,
>)
    ensures
        r is Ok <==> is_prefix_of(state.0@, spec_resolve(state.0@, category_path@))
            && spec_parent(spec_resolve(state.0@, category_path@)).len() > 0,
        r is Err ==> r matches Err(VaultError::InvalidPath),
        r matches Ok(p) ==> {
            let resolved = spec_resolve(state.0@, category_path@);
            &&& p.0@ == resolved
            &&& p.1@ == spec_join(spec_parent(resolved), new_name@)
        },
{
    let root = state.0.as_str();
    let category_abs = resolve_path(root, category_path);
    match ensure_within_root(category_abs.as_str(), root) {
        Ok(()) => {},
        Err(e) => {
            return Err(e);
        },
    }
    let parent = parent_path(category_abs.as_str());
    let parent_chars = chars_vec(parent.as_str());
    if parent_chars.len() == 0 {
        return Err(VaultError::InvalidPath);
    }
    let target = join_path(parent.as_str(), new_name);
    Ok((category_abs, target))
}

/// Moves a category under a new parent, keeping its name: both paths
/// must sit within the vault, and an existing destination is a
/// conflict.
pub fn move_category(
    state: &VaultState,
    category_path: &str,
    target_parent_path: &str,
    target_exists: bool,
) -> (r: Result<(String, String, String), VaultError>)
    ensures
        r is Ok <==> is_prefix_of(state.0@, spec_resolve(state.0@, category_path@))
            && is_prefix_of(state.0@, spec_resolve(state.0@, target_parent_path@))
            && !target_exists,
        r matches Ok(p) ==> {
            let resolved = spec_resolve(state.0@, category_path@);
            let parent = spec_resolve(state.0@, target_parent_path@);
            &&& p.0@ == spec_basename(resolved)
            &&& p.1@ == resolved
            &&& p.2@ == spec_join(parent, spec_basename(resolved))
        },
        r is Err ==> (r matches Err(VaultError::InvalidPath)) || (r matches Err(
            VaultError::Conflict,
        ) && target_exists),
{
    let root = state.0.as_str();
    let category_abs = resolve_path(root, category_path);
    let target_parent = resolve_path(root, target_parent_path);
    match ensure_within_root(category_abs.as_str(), root) {
        Ok(()) => {},
        Err(e) => {
            return Err(e);
        },
    }
    match ensure_within_root(target_parent.as_str(), root) {
        Ok(()) => {},
        Err(e) => {
            return Err(e);
        },
    }
    if target_exists {
        return Err(VaultError::Conflict);
    }
    let name = basename(category_abs.as_str());
    let target = join_path(target_parent.as_str(), name.as_str());
    Ok((name, category_abs, target))
}

/// Deletes a category into the trash under a timestamped name.
pub fn delete_category(state: &VaultState, category_path: &str) -> (r: Result<
    (String, String),
    VaultError,
>)
    ensures
        r is Ok <==> is_prefix_of(state.0@, spec_resolve(state.0@, category_path@)),
        r is Err ==> r matches Err(VaultError::InvalidPath),
        r matches Ok(p) ==> {
            let resolved = spec_resolve(state.0@, category_path@);
            &&& p.0@ == resolved
            &&& exists|m: int|
                p.1@ == spec_join(
                    spec_join(state.0@, "trash"@),
                    spec_basename(resolved) + seq!['_'] + dec_str(m),
                )
        },
{
    let root = state.0.as_str();
    let category_abs = resolve_path(root, category_path);
    match ensure_within_root(category_abs.as_str(), root) {
        Ok(()) => {},
        Err(e) => {
            return Err(e);
        },
    }
    let name = basename(category_abs.as_str());
    let millis = now_millis();
    let ms: u64 = if millis >= 0 {
        millis as u64
    } else {
        0
    };
    let stamp = crate::strutil::u64_to_string(ms);
    let with_sep = concat_str(name.as_str(), "_");
    let target_name = concat_str(with_sep.as_str(), stamp.as_str());
    let trash_path = join_path(root, "trash");
    let target = join_path(trash_path.as_str(), target_name.as_str());
    proof {
        reveal_strlit("_");
        reveal_strlit("trash");
        assert(target_name@ =~= spec_basename(category_abs@) + seq!['_'] + dec_str(ms as int));
    }
    Ok((category_abs, target))
}

/// Rewrites a document in place, with the update moment recorded in
/// its metadata.
pub fn save_prompt(state: &VaultState, prompt: PromptData) -> (r: Result<PromptData, VaultError>)
    ensures
        r is Ok <==> is_prefix_of(state.0@, spec_resolve(state.0@, prompt.path@)),
        r is Err ==> r matches Err(VaultError::InvalidPath),
        r matches Ok(p) ==> {
            &&& p.path@ == spec_resolve(state.0@, prompt.path@)
            &&& p.content@ == prompt.content@
            &&& (jlookup(p.meta@, "updated_at"@) matches Some(JVal::Str(_)))
            &&& (forall|k: Seq<char>|
                k != "updated_at"@ ==> #[trigger] jlookup(p.meta@, k) == jlookup(prompt.meta@, k))
        },
{
    let root = state.0.as_str();
    let resolved = resolve_path(root, prompt.path.as_str());
    match ensure_within_root(resolved.as_str(), root) {
        Ok(()) => {},
        Err(e) => {
            return Err(e);
        },
    }
    let mut meta = prompt.meta;
    let now = now_rfc3339();
    meta.set("updated_at", JsonVal::Str(now));
    proof {
        lemma_meta_keys_distinct();
    }
    Ok(PromptData { meta, content: prompt.content, path: resolved })
}

/// The base64 text of an upload: everything after the first `base64,`
/// marker, or the whole text when there is no marker.
pub open spec fn spec_b64_payload(s: Seq<char>) -> Seq<char> {
    match crate::strutil::spec_first_sub(s, "base64,"@) {
        Some(i) => s.subrange(i + "base64,"@.len(), s.len() as int),
        None => s,
    }
}

/// What an image upload decided: where the decoded bytes go and the
/// vault-relative path the host reports back.
pub struct UploadPlan {
    pub assets_dir: String,
    pub name: String,
    pub file_path: String,
    pub payload: String,
    pub bytes: Vec<u8>,
    pub relative: String,
}

/// Decodes an uploaded image and places it under the document's asset
/// directory: a `base64,` marker and everything before it is stripped,
/// the rest must decode, and the file keeps the given name or is
/// stamped with the upload moment.
#[verifier::rlimit(60)]
#[verifier::spinoff_prover]
pub fn upload_image(
    state: &VaultState,
    image_data: &str,
    prompt_id: &str,
    file_name: Option<String>,
) -> (r: Result<UploadPlan, VaultError>)
    ensures
        r is Ok <==> base64_decoded(spec_b64_payload(image_data@)) is Some,
        r matches Ok(p) ==> {
            &&& p.assets_dir@ == spec_join(spec_join(state.0@, "assets"@), prompt_id@)
            &&& p.file_path@ == spec_join(p.assets_dir@, p.name@)
            &&& p.relative@ == spec_join(spec_join("assets"@, prompt_id@), p.name@)
            &&& p.payload@ == spec_b64_payload(image_data@)
            &&& base64_decoded(p.payload@) == Some(p.bytes@)
            &&& (file_name matches Some(n) ==> p.name@ == n@)
        },
        r is Err ==> r matches Err(VaultError::Io),
{
    let cs = chars_vec(image_data);
    let marker = chars_vec("base64,");
    proof {
        reveal_strlit("base64,");
    }
    let payload: String = match find_first_sub(&cs, &marker) {
        Some(idx) => {
            let n = cs.len();
            let start = idx + 7;
            let mut rest: Vec<char> = Vec::new();
            let mut k: usize = start;
            while k < n
                invariant
                    start <= k <= n,
                    n == cs@.len(),
                    rest@ == cs@.subrange(start as int, k as int),
                decreases n - k,
            {
                rest.push(cs[k]);
                k = k + 1;
                assert(rest@ =~= cs@.subrange(start as int, k as int));
            }
            proof {
                reveal_strlit("base64,");
                assert(rest@ =~= spec_b64_payload(image_data@));
            }
            string_from_chars(&rest)
        },
        None => {
            let all = chars_vec(image_data);
            proof {
                assert(all@ =~= spec_b64_payload(image_data@));
            }
            string_from_chars(&all)
        },
    };
    let bytes = match base64_decode(payload.as_str()) {
        Ok(b) => b,
        Err(_) => {
            return Err(VaultError::Io);
        },
    };
    let name: String = match &file_name {
        Some(n) => n.clone(),
        None => {
            let millis = now_millis();
            let ms: u64 = if millis >= 0 {
                millis as u64
            } else {
                0
            };
            let stamp = crate::strutil::u64_to_string(ms);
            let with_prefix = concat_str("image_", stamp.as_str());
            concat_str(with_prefix.as_str(), ".png")
        },
    };
    let assets_root = join_path(state.0.as_str(), "assets");
    let assets_dir = join_path(assets_root.as_str(), prompt_id);
    let file_path = join_path(assets_dir.as_str(), name.as_str());
    let rel_root = join_path("assets", prompt_id);
    let relative = join_path(rel_root.as_str(), name.as_str());
    proof {
        reveal_strlit("assets");
    }
    Ok(UploadPlan { assets_dir, name, file_path, payload, bytes, relative })
}

} // verus!
