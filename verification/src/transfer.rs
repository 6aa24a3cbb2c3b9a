//! Bulk export and import of documents: flat or structure-preserving
//! export records, and import with skip, overwrite or rename-on-conflict
//! resolution.

use vstd::prelude::*;
use crate::bridge::{new_uuid, now_rfc3339};
use crate::json::{jlookup, json_clone, obj_clone, JsonObj, JsonVal, JVal};
use crate::meta::{default_meta_map, lemma_meta_keys_distinct, PromptCreateOptions};
use crate::naming::fresh_numbered;
use crate::paths::{join_path, normalize_category_path, resolve_path, slashes_of};
use crate::scanner::{prompt_views, spec_index_get, spec_prompt_id, PromptData, PromptRec};
use crate::slug::title_to_slug;
use crate::strutil::{
    chars_vec, concat_str, is_prefix_of, streq, string_from_chars, trim_str, trimmed_of,
    vec_contains_str,
};
use crate::vault_ops::fresh_doc_path;

verus! {

/// The relative form a structured export writes for a category path:
/// separators normalised, the vault root prefix stripped, and a single
/// leading slash after it removed.
pub open spec fn spec_relativize(cp: Seq<char>, root: Seq<char>) -> Seq<char> {
    let rel = slashes_of(cp);
    let rs = slashes_of(root);
    if is_prefix_of(rs, rel) {
        let stripped = rel.skip(rs.len() as int);
        if stripped.len() > 0 && stripped[0] == '/' {
            stripped.drop_first()
        } else {
            stripped
        }
    } else {
        rel
    }
}

/// The relative form a structured export writes for a category path.
pub fn relativize_category(cat_path: &str, root: &str) -> (r: String)
    ensures
        r@ == spec_relativize(cat_path@, root@),
{
    let cp = chars_vec(cat_path);
    let rel = to_slashes_vec(&cp);
    let rt = chars_vec(root);
    let rs = to_slashes_vec(&rt);
    let n = rel.len();
    let m = rs.len();
    let mut prefix = m <= n;
    proof {
        if m > n {
            assert(!is_prefix_of(rs@, rel@));
        }
    }
    let mut i: usize = 0;
    while i < m && prefix
        invariant
            i <= m,
            m == rs@.len(),
            n == rel@.len(),
            prefix ==> m <= n && forall|j: int| 0 <= j < i ==> rel@[j] == rs@[j],
            !prefix ==> !is_prefix_of(rs@, rel@),
        decreases m - i,
    {
        if rel[i] != rs[i] {
            proof {
                assert(m <= n);
                assert(rel@.subrange(0, m as int)[i as int] != rs@[i as int]);
                assert(!is_prefix_of(rs@, rel@));
            }
            prefix = false;
            i = m;
        } else {
            i = i + 1;
        }
    }
    if !prefix {
        proof {
            assert(!is_prefix_of(rs@, rel@));
        }
        return string_from_chars(&rel);
    }
    proof {
        assert(rel@.subrange(0, m as int) =~= rs@);
        assert(is_prefix_of(rs@, rel@));
    }
    let start: usize = if m < n && rel[m] == '/' {
        m + 1
    } else {
        m
    };
    let mut out: Vec<char> = Vec::new();
    let mut k: usize = start;
    while k < n
        invariant
            start <= k <= n,
            n == rel@.len(),
            out@ == rel@.subrange(start as int, k as int),
        decreases n - k,
    {
        out.push(rel[k]);
        k = k + 1;
        assert(out@ =~= rel@.subrange(start as int, k as int));
    }
    proof {
        let stripped = rel@.skip(m as int);
        if m < n && rel@[m as int] == '/' {
            assert(out@ =~= stripped.drop_first());
        } else {
            assert(out@ =~= stripped);
        }
    }
    string_from_chars(&out)
}

fn to_slashes_vec(s: &Vec<char>) -> (r: Vec<char>)
    ensures
        r@ == slashes_of(s@),
{
    let mut out: Vec<char> = Vec::new();
    let mut i: usize = 0;
    while i < s.len()
        invariant
            i <= s@.len(),
            out@ == slashes_of(s@.subrange(0, i as int)),
        decreases s@.len() - i,
    {
        let c = s[i];
        if c == '\\' {
            out.push('/');
        } else {
            out.push(c);
        }
        i = i + 1;
        assert(out@ =~= slashes_of(s@.subrange(0, i as int)));
    }
    assert(s@.subrange(0, s@.len() as int) =~= s@);
    out
}

/// What one export record holds of a document: the title passed
/// through; tags, type, favourite flag, author and version with their
/// documented defaults; the body when asked for; the vault-relative
/// category path when the document is in the structured set; the
/// scheduled time, recurrence and model configuration passed through
/// untouched.
pub open spec fn spec_is_export_of(
    rec: Seq<(Seq<char>, JVal)>,
    doc: PromptRec,
    include_content: bool,
    structured: bool,
    root: Seq<char>,
) -> bool {
    &&& jlookup(rec, "title"@) == jlookup(doc.meta, "title"@)
    &&& jlookup(rec, "tags"@) == Some(
        match jlookup(doc.meta, "tags"@) {
            Some(v) => v,
            None => JVal::Arr(Seq::empty()),
        },
    )
    &&& jlookup(rec, "type"@) == Some(
        match jlookup(doc.meta, "type"@) {
            Some(v) => v,
            None => JVal::Str("NOTE"@),
        },
    )
    &&& jlookup(rec, "is_favorite"@) == Some(
        match jlookup(doc.meta, "is_favorite"@) {
            Some(v) => v,
            None => JVal::Bool(false),
        },
    )
    &&& jlookup(rec, "author"@) == Some(
        match jlookup(doc.meta, "author"@) {
            Some(v) => v,
            None => JVal::Str(Seq::empty()),
        },
    )
    &&& jlookup(rec, "version"@) == Some(
        match jlookup(doc.meta, "version"@) {
            Some(v) => v,
            None => JVal::Str("1.0.0"@),
        },
    )
    &&& jlookup(rec, "content"@) == (if include_content {
        Some(JVal::Str(doc.content))
    } else {
        None::<JVal>
    })
    &&& jlookup(rec, "category_path"@) == (match jlookup(doc.meta, "category_path"@) {
        Some(JVal::Str(cp)) => if structured {
            Some(JVal::Str(spec_relativize(cp, root)))
        } else {
            None::<JVal>
        },
        _ => None::<JVal>,
    })
    &&& jlookup(rec, "scheduled_time"@) == jlookup(doc.meta, "scheduled_time"@)
    &&& jlookup(rec, "recurrence"@) == jlookup(doc.meta, "recurrence"@)
    &&& jlookup(rec, "model_config"@) == jlookup(doc.meta, "model_config"@)
}

/// Builds the export record of one document.
#[verifier::rlimit(60)]
pub fn export_record(prompt: &PromptData, include_content: bool, structured: bool, root: &str) -> (
    r: JsonObj)
    ensures
        spec_is_export_of(r@, prompt@, include_content, structured, root@),
{
    proof {
        lemma_meta_keys_distinct();
    }
    let mut item = JsonObj::new();
    match prompt.meta.get("title") {
        Some(v) => {
            item.set("title", json_clone(v));
        },
        None => {},
    }
    match prompt.meta.get("tags") {
        Some(v) => {
            item.set("tags", json_clone(v));
        },
        None => {
            let empty: Vec<JsonVal> = Vec::new();
            item.set("tags", JsonVal::Arr(empty));
        },
    }
    match prompt.meta.get("type") {
        Some(v) => {
            item.set("type", json_clone(v));
        },
        None => {
            item.set("type", JsonVal::Str(String::from_str("NOTE")));
        },
    }
    match prompt.meta.get("is_favorite") {
        Some(v) => {
            item.set("is_favorite", json_clone(v));
        },
        None => {
            item.set("is_favorite", JsonVal::Bool(false));
        },
    }
    match prompt.meta.get("author") {
        Some(v) => {
            item.set("author", json_clone(v));
        },
        None => {
            item.set("author", JsonVal::Str(String::new()));
        },
    }
    match prompt.meta.get("version") {
        Some(v) => {
            item.set("version", json_clone(v));
        },
        None => {
            item.set("version", JsonVal::Str(String::from_str("1.0.0")));
        },
    }
    if include_content {
        item.set("content", JsonVal::Str(prompt.content.clone()));
    }
    if structured {
        match prompt.meta.get_str("category_path") {
            Some(cp) => {
                let rel = relativize_category(cp.as_str(), root);
                item.set("category_path", JsonVal::Str(rel));
            },
            None => {},
        }
    }
    match prompt.meta.get("scheduled_time") {
        Some(v) => {
            item.set("scheduled_time", json_clone(v));
        },
        None => {},
    }
    match prompt.meta.get("recurrence") {
        Some(v) => {
            item.set("recurrence", json_clone(v));
        },
        None => {},
    }
    match prompt.meta.get("model_config") {
        Some(v) => {
            item.set("model_config", json_clone(v));
        },
        None => {},
    }
    item
}

/// The record is the export of some document the index holds, in one
/// of the two modes.
pub open spec fn spec_exported_from_index(
    index: Seq<PromptRec>,
    rec: Seq<(Seq<char>, JVal)>,
    with_content: bool,
    root: Seq<char>,
) -> bool {
    exists|doc: PromptRec, structured: bool|
        spec_index_get(index, spec_prompt_id(doc.meta).unwrap()) == Some(doc)
            && spec_is_export_of(rec, doc, with_content, structured, root)
}

/// The content flag an export request carries; unset means included.
pub open spec fn spec_include(o: Option<bool>) -> bool {
    match o {
        Some(b) => b,
        None => true,
    }
}

/// Neither per-id mode set is given: the request names its ids in the
/// plain list, all in one mode.
pub open spec fn spec_plain_request(
    structured_ids: Option<Vec<String>>,
    flat_ids: Option<Vec<String>>,
) -> bool {
    (match structured_ids {
        Some(v) => v@.len() == 0,
        None => true,
    }) && (match flat_ids {
        Some(v) => v@.len() == 0,
        None => true,
    })
}

/// The id texts of a request list; none means no ids.
pub open spec fn spec_id_views(ids: Option<Vec<String>>) -> Seq<Seq<char>> {
    match ids {
        Some(v) => v@.map_values(|s: String| s@),
        None => Seq::empty(),
    }
}

/// Some id in the list equals this one.
pub open spec fn spec_has_id(s: Seq<Seq<char>>, id: Seq<char>) -> bool {
    exists|q: int| 0 <= q < s.len() && s[q] == id
}

/// Some processed request entry carries this id.
pub open spec fn spec_listed(processed: Seq<(String, bool)>, id: Seq<char>) -> bool {
    exists|q: int| 0 <= q < processed.len() && (#[trigger] processed[q]).0@ == id
}

/// What a bulk export produced: the records, their count, and the ids
/// the index did not hold.
pub struct ExportResults {
    pub prompts: Vec<JsonObj>,
    pub total: usize,
    pub not_found: Vec<String>,
}

/// Exports the requested ids out of the flat index. When neither the
/// structured nor the flat set is given, the plain list is exported,
/// all structured or all flat as the flag says; otherwise the two sets
/// name the ids and their modes, a structured listing winning over a
/// flat one. Every requested id is answered: with a record when the
/// index holds it, in `not_found` when it does not.
pub fn export_prompts(
    index: &Vec<PromptData>,
    ids: Option<Vec<String>>,
    include_content: Option<bool>,
    preserve_structure: Option<bool>,
    structured_ids: Option<Vec<String>>,
    flat_ids: Option<Vec<String>>,
    root: &str,
) -> (r: ExportResults)
    ensures
        r.total == r.prompts@.len(),
        forall|j: int|
            0 <= j < r.not_found@.len() ==> spec_index_get(
                prompt_views(index@),
                (#[trigger] r.not_found@[j])@,
            ) is None,
        forall|j: int|
            0 <= j < r.prompts@.len() ==> spec_exported_from_index(
                prompt_views(index@),
                (#[trigger] r.prompts@[j])@,
                spec_include(include_content),
                root@,
            ),
        spec_plain_request(structured_ids, flat_ids) ==> r.prompts@.len() + r.not_found@.len()
            == spec_id_views(ids).len(),
        spec_plain_request(structured_ids, flat_ids) ==> forall|j: int|
            0 <= j < spec_id_views(ids).len() ==> (match spec_index_get(
                prompt_views(index@),
                #[trigger] spec_id_views(ids)[j],
            ) {
                Some(doc) => exists|p: int|
                    0 <= p < r.prompts@.len() && spec_is_export_of(
                        (#[trigger] r.prompts@[p])@,
                        doc,
                        spec_include(include_content),
                        match preserve_structure {
                            Some(b) => b,
                            None => false,
                        },
                        root@,
                    ),
                None => exists|k: int|
                    0 <= k < r.not_found@.len() && (#[trigger] r.not_found@[k])@ == spec_id_views(
                        ids,
                    )[j],
            }),
        forall|j: int|
            0 <= j < spec_id_views(structured_ids).len() ==> (match spec_index_get(
                prompt_views(index@),
                #[trigger] spec_id_views(structured_ids)[j],
            ) {
                Some(doc) => exists|p: int|
                    0 <= p < r.prompts@.len() && spec_is_export_of(
                        (#[trigger] r.prompts@[p])@,
                        doc,
                        spec_include(include_content),
                        true,
                        root@,
                    ),
                None => exists|k: int|
                    0 <= k < r.not_found@.len() && (#[trigger] r.not_found@[k])@ == spec_id_views(
                        structured_ids,
                    )[j],
            }),
        forall|j: int|
            0 <= j < spec_id_views(flat_ids).len() ==> (match spec_index_get(
                prompt_views(index@),
                #[trigger] spec_id_views(flat_ids)[j],
            ) {
                Some(doc) => exists|p: int|
                    0 <= p < r.prompts@.len() && spec_is_export_of(
                        (#[trigger] r.prompts@[p])@,
                        doc,
                        spec_include(include_content),
                        spec_has_id(
                            spec_id_views(structured_ids),
                            spec_id_views(flat_ids)[j],
                        ),
                        root@,
                    ),
                None => exists|k: int|
                    0 <= k < r.not_found@.len() && (#[trigger] r.not_found@[k])@ == spec_id_views(
                        flat_ids,
                    )[j],
            }),
{
    let ghost no_sets = spec_plain_request(structured_ids, flat_ids);
    let ghost ids_view = spec_id_views(ids);
    let ghost stv = spec_id_views(structured_ids);
    let ghost flv = spec_id_views(flat_ids);
    let with_content = match include_content {
        Some(b) => b,
        None => true,
    };
    let preserve = match preserve_structure {
        Some(b) => b,
        None => false,
    };
    let structured_list = match structured_ids {
        Some(v) => v,
        None => Vec::new(),
    };
    let flat_list = match flat_ids {
        Some(v) => v,
        None => Vec::new(),
    };
    proof {
        assert(structured_list@.map_values(|s: String| s@) =~= stv);
        assert(flat_list@.map_values(|s: String| s@) =~= flv);
    }
    let use_sets = structured_list.len() > 0 || flat_list.len() > 0;
    proof {
        assert(use_sets == !no_sets);
    }
    let mut processed: Vec<(String, bool)> = Vec::new();
    if !use_sets {
        let list = match ids {
            Some(v) => v,
            None => Vec::new(),
        };
        proof {
            assert(list@.map_values(|s: String| s@) =~= ids_view);
        }
        let mut i: usize = 0;
        while i < list.len()
            invariant
                i <= list@.len(),
                list@.map_values(|s: String| s@) == ids_view,
                processed@.len() == i,
                forall|j: int|
                    0 <= j < i ==> (#[trigger] processed@[j]).0@ == ids_view[j]
                        && processed@[j].1 == preserve,
            decreases list@.len() - i,
        {
            processed.push((list[i].clone(), preserve));
            i = i + 1;
        }
        proof {
            assert(processed@.len() == ids_view.len());
        }
    } else {
        let mut seen: Vec<String> = Vec::new();
        let mut i: usize = 0;
        while i < structured_list.len()
            invariant
                i <= structured_list@.len(),
                structured_list@.map_values(|s: String| s@) == stv,
                stv.len() == structured_list@.len(),
                seen@.len() == processed@.len(),
                forall|q: int| 0 <= q < seen@.len() ==> (#[trigger] seen@[q])@
                    == processed@[q].0@,
                forall|q: int|
                    0 <= q < processed@.len() ==> (#[trigger] processed@[q]).1 == true
                        && spec_has_id(stv, processed@[q].0@),
                forall|j: int|
                    0 <= j < i ==> #[trigger] spec_listed(processed@, stv[j]),
            decreases structured_list@.len() - i,
        {
            let ghost seen0 = seen@;
            let ghost processed0 = processed@;
            if !vec_contains_str(&seen, structured_list[i].as_str()) {
                seen.push(structured_list[i].clone());
                processed.push((structured_list[i].clone(), true));
                proof {
                    assert(forall|q: int|
                        0 <= q < processed0.len() ==> #[trigger] processed@[q]
                            == processed0[q]);
                    assert(forall|q: int|
                        0 <= q < seen0.len() ==> #[trigger] seen@[q] == seen0[q]);
                    assert(processed@[processed@.len() - 1].0@ == stv[i as int]);
                    assert(spec_has_id(stv, stv[i as int]));
                    assert forall|j: int| 0 <= j < i + 1 implies #[trigger] spec_listed(
                        processed@,
                        stv[j],
                    ) by {
                        if j < i {
                            assert(spec_listed(processed0, stv[j]));
                            let q0 = choose|q: int|
                                0 <= q < processed0.len() && (#[trigger] processed0[q]).0@
                                    == stv[j];
                            assert(processed@[q0].0@ == stv[j]);
                        } else {
                            assert(processed@[processed@.len() - 1].0@ == stv[j]);
                        }
                    }
                }
            } else {
                proof {
                    let w = choose|w: int|
                        0 <= w < seen@.len() && (#[trigger] seen@[w])@
                            == structured_list@[i as int]@;
                    assert(processed@[w].0@ == stv[i as int]);
                    assert forall|j: int| 0 <= j < i + 1 implies #[trigger] spec_listed(
                        processed@,
                        stv[j],
                    ) by {
                        if j == i {
                            assert(processed@[w].0@ == stv[j]);
                        }
                    }
                }
            }
            i = i + 1;
        }
        let mut k: usize = 0;
        while k < flat_list.len()
            invariant
                k <= flat_list@.len(),
                flat_list@.map_values(|s: String| s@) == flv,
                flv.len() == flat_list@.len(),
                seen@.len() == processed@.len(),
                forall|q: int| 0 <= q < seen@.len() ==> (#[trigger] seen@[q])@
                    == processed@[q].0@,
                forall|q: int|
                    0 <= q < processed@.len() ==> (#[trigger] processed@[q]).1 == spec_has_id(
                        stv,
                        processed@[q].0@,
                    ),
                forall|j: int|
                    0 <= j < stv.len() ==> #[trigger] spec_listed(processed@, stv[j]),
                forall|j: int|
                    0 <= j < k ==> #[trigger] spec_listed(processed@, flv[j]),
            decreases flat_list@.len() - k,
        {
            let ghost seen0 = seen@;
            let ghost processed0 = processed@;
            if !vec_contains_str(&seen, flat_list[k].as_str()) {
                proof {
                    // The id is in no structured listing: a structured
                    // occurrence would already sit in `seen`.
                    if spec_has_id(stv, flv[k as int]) {
                        let j0 = choose|j: int| 0 <= j < stv.len() && stv[j] == flv[k as int];
                        assert(spec_listed(processed0, stv[j0]));
                        let q0 = choose|q: int|
                            0 <= q < processed0.len() && (#[trigger] processed0[q]).0@
                                == stv[j0];
                        assert(seen0[q0]@ == flv[k as int]);
                    }
                    assert(!spec_has_id(stv, flv[k as int]));
                }
                seen.push(flat_list[k].clone());
                processed.push((flat_list[k].clone(), false));
                proof {
                    assert(forall|q: int|
                        0 <= q < processed0.len() ==> #[trigger] processed@[q]
                            == processed0[q]);
                    assert(forall|q: int|
                        0 <= q < seen0.len() ==> #[trigger] seen@[q] == seen0[q]);
                    assert(processed@[processed@.len() - 1].0@ == flv[k as int]);
                    assert forall|j: int| 0 <= j < stv.len() implies #[trigger] spec_listed(
                        processed@,
                        stv[j],
                    ) by {
                        assert(spec_listed(processed0, stv[j]));
                        let q0 = choose|q: int|
                            0 <= q < processed0.len() && (#[trigger] processed0[q]).0@
                                == stv[j];
                        assert(processed@[q0].0@ == stv[j]);
                    }
                    assert forall|j: int| 0 <= j < k + 1 implies #[trigger] spec_listed(
                        processed@,
                        flv[j],
                    ) by {
                        if j < k {
                            assert(spec_listed(processed0, flv[j]));
                            let q0 = choose|q: int|
                                0 <= q < processed0.len() && (#[trigger] processed0[q]).0@
                                    == flv[j];
                            assert(processed@[q0].0@ == flv[j]);
                        } else {
                            assert(processed@[processed@.len() - 1].0@ == flv[j]);
                        }
                    }
                }
            } else {
                proof {
                    let w = choose|w: int|
                        0 <= w < seen@.len() && (#[trigger] seen@[w])@ == flat_list@[k as int]@;
                    assert(processed@[w].0@ == flv[k as int]);
                    assert forall|j: int| 0 <= j < k + 1 implies #[trigger] spec_listed(
                        processed@,
                        flv[j],
                    ) by {
                        if j == k {
                            assert(processed@[w].0@ == flv[j]);
                        }
                    }
                }
            }
            k = k + 1;
        }
    }
    let mut export_items: Vec<JsonObj> = Vec::new();
    let mut not_found: Vec<String> = Vec::new();
    let mut i: usize = 0;
    while i < processed.len()
        invariant
            i <= processed@.len(),
            export_items@.len() + not_found@.len() == i,
            no_sets ==> processed@.len() == ids_view.len(),
            no_sets ==> forall|j: int|
                0 <= j < processed@.len() ==> (#[trigger] processed@[j]).0@ == ids_view[j]
                    && processed@[j].1 == preserve,
            !no_sets ==> forall|j: int|
                0 <= j < stv.len() ==> #[trigger] spec_listed(processed@, stv[j]),
            !no_sets ==> forall|j: int|
                0 <= j < flv.len() ==> #[trigger] spec_listed(processed@, flv[j]),
            !no_sets ==> forall|q: int|
                0 <= q < processed@.len() ==> (#[trigger] processed@[q]).1 == spec_has_id(
                    stv,
                    processed@[q].0@,
                ),
            forall|q: int|
                0 <= q < i ==> (match spec_index_get(
                    prompt_views(index@),
                    (#[trigger] processed@[q]).0@,
                ) {
                    Some(doc) => exists|p: int|
                        0 <= p < export_items@.len() && spec_is_export_of(
                            (#[trigger] export_items@[p])@,
                            doc,
                            with_content,
                            processed@[q].1,
                            root@,
                        ),
                    None => exists|kk: int|
                        0 <= kk < not_found@.len() && (#[trigger] not_found@[kk])@
                            == processed@[q].0@,
                }),
            forall|j: int|
                0 <= j < not_found@.len() ==> spec_index_get(
                    prompt_views(index@),
                    (#[trigger] not_found@[j])@,
                ) is None,
            forall|j: int|
                0 <= j < export_items@.len() ==> spec_exported_from_index(
                    prompt_views(index@),
                    (#[trigger] export_items@[j])@,
                    with_content,
                    root@,
                ),
            with_content == spec_include(include_content),
        decreases processed@.len() - i,
    {
        let id = processed[i].0.as_str();
        let structured = processed[i].1;
        match index_lookup(index, id) {
            Some(k) => {
                let rec = export_record(&index[k], with_content, structured, root);
                let ghost old_items = export_items@;
                proof {
                    let doc = prompt_views(index@)[k as int];
                    assert(spec_index_get(prompt_views(index@), spec_prompt_id(doc.meta).unwrap())
                        == Some(doc));
                    assert(spec_is_export_of(rec@, doc, with_content, structured, root@));
                    assert(spec_exported_from_index(
                        prompt_views(index@),
                        rec@,
                        with_content,
                        root@,
                    ));
                }
                export_items.push(rec);
                proof {
                    assert(forall|p: int|
                        0 <= p < old_items.len() ==> #[trigger] export_items@[p]
                            == old_items[p]);
                    let doc = prompt_views(index@)[k as int];
                    assert(export_items@[export_items@.len() - 1]@ == rec@);
                    assert forall|q: int| 0 <= q < i + 1 implies (match spec_index_get(
                        prompt_views(index@),
                        (#[trigger] processed@[q]).0@,
                    ) {
                        Some(d) => exists|p: int|
                            0 <= p < export_items@.len() && spec_is_export_of(
                                (#[trigger] export_items@[p])@,
                                d,
                                with_content,
                                processed@[q].1,
                                root@,
                            ),
                        None => exists|kk: int|
                            0 <= kk < not_found@.len() && (#[trigger] not_found@[kk])@
                                == processed@[q].0@,
                    }) by {
                        if q < i {
                            match spec_index_get(prompt_views(index@), processed@[q].0@) {
                                Some(d) => {
                                    let p0 = choose|p: int|
                                        0 <= p < old_items.len() && spec_is_export_of(
                                            (#[trigger] old_items[p])@,
                                            d,
                                            with_content,
                                            processed@[q].1,
                                            root@,
                                        );
                                    assert(spec_is_export_of(
                                        export_items@[p0]@,
                                        d,
                                        with_content,
                                        processed@[q].1,
                                        root@,
                                    ));
                                },
                                None => {},
                            }
                        } else {
                            assert(spec_is_export_of(
                                export_items@[export_items@.len() - 1]@,
                                doc,
                                with_content,
                                processed@[q].1,
                                root@,
                            ));
                        }
                    }
                }
            },
            None => {
                let ghost old_nf = not_found@;
                not_found.push(processed[i].0.clone());
                proof {
                    assert(forall|kk: int|
                        0 <= kk < old_nf.len() ==> #[trigger] not_found@[kk] == old_nf[kk]);
                    assert(not_found@[not_found@.len() - 1]@ == processed@[i as int].0@);
                    assert forall|q: int| 0 <= q < i + 1 implies (match spec_index_get(
                        prompt_views(index@),
                        (#[trigger] processed@[q]).0@,
                    ) {
                        Some(d) => exists|p: int|
                            0 <= p < export_items@.len() && spec_is_export_of(
                                (#[trigger] export_items@[p])@,
                                d,
                                with_content,
                                processed@[q].1,
                                root@,
                            ),
                        None => exists|kk: int|
                            0 <= kk < not_found@.len() && (#[trigger] not_found@[kk])@
                                == processed@[q].0@,
                    }) by {
                        if q < i {
                            match spec_index_get(prompt_views(index@), processed@[q].0@) {
                                Some(d) => {},
                                None => {
                                    let k0 = choose|kk: int|
                                        0 <= kk < old_nf.len() && (#[trigger] old_nf[kk])@
                                            == processed@[q].0@;
                                    assert(not_found@[k0]@ == processed@[q].0@);
                                },
                            }
                        } else {
                            assert(not_found@[not_found@.len() - 1]@ == processed@[q].0@);
                        }
                    }
                }
            },
        }
        i = i + 1;
    }
    let total = export_items.len();
    let r = ExportResults { prompts: export_items, total, not_found };
    proof {
        assert forall|q: int| 0 <= q < processed@.len() implies (match spec_index_get(
            prompt_views(index@),
            (#[trigger] processed@[q]).0@,
        ) {
            Some(d) => exists|p: int|
                0 <= p < r.prompts@.len() && spec_is_export_of(
                    (#[trigger] r.prompts@[p])@,
                    d,
                    with_content,
                    processed@[q].1,
                    root@,
                ),
            None => exists|kk: int|
                0 <= kk < r.not_found@.len() && (#[trigger] r.not_found@[kk])@
                    == processed@[q].0@,
        }) by {
            match spec_index_get(prompt_views(index@), processed@[q].0@) {
                Some(d) => {
                    let p0 = choose|p: int|
                        0 <= p < r.prompts@.len() && spec_is_export_of(
                            (#[trigger] r.prompts@[p])@,
                            d,
                            with_content,
                            processed@[q].1,
                            root@,
                        );
                    assert(spec_is_export_of(
                        r.prompts@[p0]@,
                        d,
                        with_content,
                        processed@[q].1,
                        root@,
                    ));
                },
                None => {
                    let k0 = choose|kk: int|
                        0 <= kk < r.not_found@.len() && (#[trigger] r.not_found@[kk])@
                            == processed@[q].0@;
                    assert(r.not_found@[k0]@ == processed@[q].0@);
                },
            }
        }
        if no_sets {
            assert forall|j: int| 0 <= j < ids_view.len() implies (match spec_index_get(
                prompt_views(index@),
                #[trigger] ids_view[j],
            ) {
                Some(doc) => exists|p: int|
                    0 <= p < r.prompts@.len() && spec_is_export_of(
                        (#[trigger] r.prompts@[p])@,
                        doc,
                        with_content,
                        preserve,
                        root@,
                    ),
                None => exists|k: int|
                    0 <= k < r.not_found@.len() && (#[trigger] r.not_found@[k])@ == ids_view[j],
            }) by {
                assert(processed@[j].0@ == ids_view[j] && processed@[j].1 == preserve);
            }
            assert(stv.len() == 0);
            assert(flv.len() == 0);
        } else {
            assert forall|j: int| #![trigger stv[j]] 0 <= j < stv.len() implies (
            match spec_index_get(prompt_views(index@), stv[j]) {
                Some(doc) => exists|p: int|
                    0 <= p < r.prompts@.len() && spec_is_export_of(
                        (#[trigger] r.prompts@[p])@,
                        doc,
                        with_content,
                        true,
                        root@,
                    ),
                None => exists|k: int|
                    0 <= k < r.not_found@.len() && (#[trigger] r.not_found@[k])@ == stv[j],
            }) by {
                assert(spec_listed(processed@, stv[j]));
                let q0 = choose|q: int|
                    0 <= q < processed@.len() && (#[trigger] processed@[q]).0@ == stv[j];
                assert(processed@[q0].1 == spec_has_id(stv, stv[j]));
                assert(spec_has_id(stv, stv[j]));
            }
            assert forall|j: int| #![trigger flv[j]] 0 <= j < flv.len() implies (
            match spec_index_get(prompt_views(index@), flv[j]) {
                Some(doc) => exists|p: int|
                    0 <= p < r.prompts@.len() && spec_is_export_of(
                        (#[trigger] r.prompts@[p])@,
                        doc,
                        with_content,
                        spec_has_id(stv, flv[j]),
                        root@,
                    ),
                None => exists|k: int|
                    0 <= k < r.not_found@.len() && (#[trigger] r.not_found@[k])@ == flv[j],
            }) by {
                assert(spec_listed(processed@, flv[j]));
                let q0 = choose|q: int|
                    0 <= q < processed@.len() && (#[trigger] processed@[q]).0@ == flv[j];
                assert(processed@[q0].1 == spec_has_id(stv, flv[j]));
            }
        }
    }
    r
}

/// The index position holding the document with this id, when the
/// index, with its unique ids, holds it at all.
fn index_lookup(index: &Vec<PromptData>, id: &str) -> (r: Option<usize>)
    ensures
        match r {
            Some(k) => k < index@.len() && {
                let doc = prompt_views(index@)[k as int];
                spec_prompt_id(doc.meta) == Some(id@) && spec_index_get(
                    prompt_views(index@),
                    id@,
                ) == Some(doc)
            },
            None => spec_index_get(prompt_views(index@), id@) is None,
        },
{
    let n = index.len();
    let ghost views = prompt_views(index@);
    proof {
        assert(views.skip(0) =~= views);
    }
    let mut k: usize = 0;
    while k < n
        invariant
            k <= n,
            n == index@.len(),
            views == prompt_views(index@),
            views.len() == n,
            spec_index_get(views, id@) == spec_index_get(views.skip(k as int), id@),
        decreases n - k,
    {
        proof {
            assert(views.skip(k as int)[0] == views[k as int]);
        }
        let found = match crate::scanner::prompt_id(&index[k].meta) {
            Some(e) => streq(e.as_str(), id),
            None => false,
        };
        if found {
            return Some(k);
        }
        proof {
            assert(views.skip(k as int).drop_first() =~= views.skip(k + 1));
        }
        k = k + 1;
    }
    proof {
        assert(views.skip(n as int) =~= Seq::<PromptRec>::empty());
    }
    None
}

} // verus!

verus! {

/// The outcome recorded for one imported record.
pub struct ImportResultDetails {
    pub index: usize,
    pub title: String,
    pub status: String,
    pub error: Option<String>,
}

/// What a bulk import produced: the per-record outcomes and their
/// tallies.
pub struct ImportResults {
    pub total: usize,
    pub success: usize,
    pub failed: usize,
    pub skipped: usize,
    pub details: Vec<ImportResultDetails>,
}

/// A write the import decided on: a fresh document directory, or a
/// rewrite of an existing document.
pub enum ImportAction {
    Create { index: usize, path: String, meta: JsonObj, content: String },
    Overwrite { index: usize, path: String, meta: JsonObj, content: String },
}

/// Copies the field out of the record when the record carries it;
/// otherwise the metadata keeps its value. Every other key is
/// untouched.
fn overlay_field(m: &mut JsonObj, record: &JsonObj, k: &str)
    ensures
        jlookup(final(m)@, k@) == (if jlookup(record@, k@) is Some {
            jlookup(record@, k@)
        } else {
            jlookup(old(m)@, k@)
        }),
        forall|k2: Seq<char>|
            k2 != k@ ==> #[trigger] jlookup(final(m)@, k2) == jlookup(old(m)@, k2),
{
    match record.get(k) {
        Some(v) => {
            let c = json_clone(v);
            m.set(k, c);
        },
        None => {},
    }
}

/// The created metadata takes the record's tags, type, model
/// configuration, author, version, favourite flag, scheduled time and
/// recurrence where the record carries them, and the documented
/// defaults where it does not.
pub open spec fn spec_overlays_record(
    m2: Seq<(Seq<char>, JVal)>,
    rec: Seq<(Seq<char>, JVal)>,
) -> bool {
    &&& jlookup(m2, "tags"@) == (if jlookup(rec, "tags"@) is Some {
        jlookup(rec, "tags"@)
    } else {
        Some(JVal::Arr(Seq::empty()))
    })
    &&& jlookup(m2, "type"@) == (if jlookup(rec, "type"@) is Some {
        jlookup(rec, "type"@)
    } else {
        Some(JVal::Str("NOTE"@))
    })
    &&& jlookup(m2, "model_config"@) == (if jlookup(rec, "model_config"@) is Some {
        jlookup(rec, "model_config"@)
    } else {
        Some(JVal::Obj(crate::meta::spec_default_model_config()))
    })
    &&& jlookup(m2, "author"@) == (if jlookup(rec, "author"@) is Some {
        jlookup(rec, "author"@)
    } else {
        Some(JVal::Str("User"@))
    })
    &&& jlookup(m2, "version"@) == (if jlookup(rec, "version"@) is Some {
        jlookup(rec, "version"@)
    } else {
        Some(JVal::Str("1.0.0"@))
    })
    &&& jlookup(m2, "is_favorite"@) == (if jlookup(rec, "is_favorite"@) is Some {
        jlookup(rec, "is_favorite"@)
    } else {
        Some(JVal::Bool(false))
    })
    &&& jlookup(m2, "scheduled_time"@) == (if jlookup(rec, "scheduled_time"@) is Some {
        jlookup(rec, "scheduled_time"@)
    } else {
        None::<JVal>
    })
    &&& jlookup(m2, "recurrence"@) == (if jlookup(rec, "recurrence"@) is Some {
        jlookup(rec, "recurrence"@)
    } else {
        None::<JVal>
    })
}

/// The metadata an imported document is created with: the default
/// synthesis for the chosen title, overlaid with the record's tags,
/// type, model configuration, author, version, favourite flag,
/// scheduled time and recurrence, where the record carries them.
#[verifier::rlimit(60)]
pub fn import_build_meta(
    title: &str,
    slug: &str,
    category_path: &str,
    record: &JsonObj,
    id: &str,
    now: &str,
) -> (m: JsonObj)
    ensures
        jlookup(m@, "id"@) == Some(JVal::Str(id@)),
        jlookup(m@, "title"@) == Some(JVal::Str(title@)),
        jlookup(m@, "slug"@) == Some(JVal::Str(slug@)),
        jlookup(m@, "created_at"@) == Some(JVal::Str(now@)),
        jlookup(m@, "updated_at"@) == Some(JVal::Str(now@)),
        jlookup(m@, "is_pinned"@) == Some(JVal::Bool(false)),
        jlookup(m@, "tags"@) == (if jlookup(record@, "tags"@) is Some {
            jlookup(record@, "tags"@)
        } else {
            Some(JVal::Arr(Seq::empty()))
        }),
        jlookup(m@, "type"@) == (if jlookup(record@, "type"@) is Some {
            jlookup(record@, "type"@)
        } else {
            Some(JVal::Str("NOTE"@))
        }),
        jlookup(m@, "model_config"@) == (if jlookup(record@, "model_config"@) is Some {
            jlookup(record@, "model_config"@)
        } else {
            Some(JVal::Obj(crate::meta::spec_default_model_config()))
        }),
        jlookup(m@, "author"@) == (if jlookup(record@, "author"@) is Some {
            jlookup(record@, "author"@)
        } else {
            Some(JVal::Str("User"@))
        }),
        jlookup(m@, "version"@) == (if jlookup(record@, "version"@) is Some {
            jlookup(record@, "version"@)
        } else {
            Some(JVal::Str("1.0.0"@))
        }),
        jlookup(m@, "is_favorite"@) == (if jlookup(record@, "is_favorite"@) is Some {
            jlookup(record@, "is_favorite"@)
        } else {
            Some(JVal::Bool(false))
        }),
        jlookup(m@, "scheduled_time"@) == (if jlookup(record@, "scheduled_time"@) is Some {
            jlookup(record@, "scheduled_time"@)
        } else {
            None::<JVal>
        }),
        jlookup(m@, "recurrence"@) == (if jlookup(record@, "recurrence"@) is Some {
            jlookup(record@, "recurrence"@)
        } else {
            None::<JVal>
        }),
        spec_overlays_record(m@, record@),
{
    proof {
        lemma_meta_keys_distinct();
    }
    let opts = PromptCreateOptions { doc_type: None, scheduled_time: None };
    let mut m = default_meta_map(title, slug, category_path, &opts, id, now);
    overlay_field(&mut m, record, "tags");
    overlay_field(&mut m, record, "type");
    overlay_field(&mut m, record, "model_config");
    overlay_field(&mut m, record, "author");
    overlay_field(&mut m, record, "version");
    overlay_field(&mut m, record, "is_favorite");
    overlay_field(&mut m, record, "scheduled_time");
    overlay_field(&mut m, record, "recurrence");
    m
}

/// The metadata an overwritten document keeps: its own, with the
/// record's tags, type, model configuration, author, version and
/// favourite flag taken over where present, and the update moment
/// recorded.
pub fn overwrite_build_meta(existing: &JsonObj, record: &JsonObj, now: &str) -> (m: JsonObj)
    ensures
        jlookup(m@, "updated_at"@) == Some(JVal::Str(now@)),
        jlookup(m@, "tags"@) == (if jlookup(record@, "tags"@) is Some {
            jlookup(record@, "tags"@)
        } else {
            jlookup(existing@, "tags"@)
        }),
        jlookup(m@, "type"@) == (if jlookup(record@, "type"@) is Some {
            jlookup(record@, "type"@)
        } else {
            jlookup(existing@, "type"@)
        }),
        jlookup(m@, "model_config"@) == (if jlookup(record@, "model_config"@) is Some {
            jlookup(record@, "model_config"@)
        } else {
            jlookup(existing@, "model_config"@)
        }),
        jlookup(m@, "author"@) == (if jlookup(record@, "author"@) is Some {
            jlookup(record@, "author"@)
        } else {
            jlookup(existing@, "author"@)
        }),
        jlookup(m@, "version"@) == (if jlookup(record@, "version"@) is Some {
            jlookup(record@, "version"@)
        } else {
            jlookup(existing@, "version"@)
        }),
        jlookup(m@, "is_favorite"@) == (if jlookup(record@, "is_favorite"@) is Some {
            jlookup(record@, "is_favorite"@)
        } else {
            jlookup(existing@, "is_favorite"@)
        }),
        forall|k: Seq<char>|
            k != "tags"@ && k != "type"@ && k != "model_config"@ && k != "author"@ && k
                != "version"@ && k != "is_favorite"@ && k != "updated_at"@ ==> #[trigger] jlookup(
                m@,
                k,
            ) == jlookup(existing@, k),
        spec_overwrite_preserves(m@, existing@),
{
    proof {
        lemma_meta_keys_distinct();
    }
    let mut m = obj_clone(existing);
    overlay_field(&mut m, record, "tags");
    overlay_field(&mut m, record, "type");
    overlay_field(&mut m, record, "model_config");
    overlay_field(&mut m, record, "author");
    overlay_field(&mut m, record, "version");
    overlay_field(&mut m, record, "is_favorite");
    m.set("updated_at", JsonVal::Str(now.to_owned()));
    m
}

} // verus!

verus! {

fn clone_strings(v: &Vec<String>) -> (r: Vec<String>)
    ensures
        r@.len() == v@.len(),
        forall|j: int| 0 <= j < v@.len() ==> (#[trigger] r@[j])@ == v@[j]@,
{
    let mut out: Vec<String> = Vec::new();
    let mut i: usize = 0;
    while i < v.len()
        invariant
            i <= v@.len(),
            out@.len() == i,
            forall|j: int| 0 <= j < i ==> (#[trigger] out@[j])@ == v@[j]@,
        decreases v@.len() - i,
    {
        out.push(v[i].clone());
        i = i + 1;
    }
    out
}

/// The title text a record carries, when it carries one as a string.
pub open spec fn spec_record_title(m: Seq<(Seq<char>, JVal)>) -> Seq<char> {
    match jlookup(m, "title"@) {
        Some(JVal::Str(t)) => t,
        _ => Seq::empty(),
    }
}

/// The body text a record carries, when it carries one as a string.
pub open spec fn spec_record_content(m: Seq<(Seq<char>, JVal)>) -> Seq<char> {
    match jlookup(m, "content"@) {
        Some(JVal::Str(t)) => t,
        _ => Seq::empty(),
    }
}

/// The category path text a record carries, when it carries one as a
/// string.
pub open spec fn spec_record_category(m: Seq<(Seq<char>, JVal)>) -> Seq<char> {
    match jlookup(m, "category_path"@) {
        Some(JVal::Str(t)) => t,
        _ => Seq::empty(),
    }
}

/// The absolute category an imported record lands in: the record's
/// normalised category under the given base, under the root, or the
/// fixed shared folder when neither names one.
pub open spec fn spec_import_target(
    root: Seq<char>,
    base: Option<&String>,
    rec: Seq<(Seq<char>, JVal)>,
) -> Seq<char> {
    let norm = crate::paths::spec_normalize_category(spec_record_category(rec));
    match base {
        Some(b) => if norm.len() == 0 {
            crate::paths::spec_resolve(root, b@)
        } else {
            crate::paths::spec_join(crate::paths::spec_resolve(root, b@), norm)
        },
        None => if norm.len() == 0 {
            crate::paths::spec_join(root, "\u{516c}\u{5171}"@)
        } else {
            crate::paths::spec_join(root, norm)
        },
    }
}

/// The conflict key a snapshot document occupies: its stored category
/// path and title, joined with a colon.
pub open spec fn spec_snapshot_key(p: PromptRec) -> Seq<char> {
    (match jlookup(p.meta, "category_path"@) {
        Some(JVal::Str(c)) => c,
        _ => Seq::empty(),
    }) + ":"@ + (match jlookup(p.meta, "title"@) {
        Some(JVal::Str(t)) => t,
        _ => Seq::empty(),
    })
}

/// Some snapshot document occupies this conflict key.
pub open spec fn spec_snapshot_collides(snapshot: Seq<PromptData>, key: Seq<char>) -> bool {
    exists|k: int|
        0 <= k < snapshot.len() && spec_snapshot_key((#[trigger] snapshot[k])@) == key
}

/// The conflict key an imported record aims at: its target category
/// and trimmed title, joined with a colon.
pub open spec fn spec_import_key(
    root: Seq<char>,
    base: Option<&String>,
    rec: Seq<(Seq<char>, JVal)>,
) -> Seq<char> {
    spec_import_target(root, base, rec) + ":"@ + trimmed_of(spec_record_title(rec))
}

/// The path belongs to a document some create action of this run lays
/// down, resolved under the root.
pub open spec fn spec_created_path(actions: Seq<ImportAction>, root: Seq<char>, p: Seq<char>) -> bool {
    exists|b: int|
        0 <= b < actions.len() && ((#[trigger] actions[b]) matches ImportAction::Create {
            path: cp,
            ..
        } && p == crate::paths::spec_resolve(root, cp@))
}

/// A created path stays created when the action list grows at the end.
proof fn lemma_created_path_grows(
    a0: Seq<ImportAction>,
    a1: Seq<ImportAction>,
    root: Seq<char>,
    p: Seq<char>,
)
    requires
        spec_created_path(a0, root, p),
        a0.len() <= a1.len(),
        forall|b: int| 0 <= b < a0.len() ==> #[trigger] a1[b] == a0[b],
    ensures
        spec_created_path(a1, root, p),
{
    let b0 = choose|b: int|
        0 <= b < a0.len() && ((#[trigger] a0[b]) matches ImportAction::Create { path: cp, .. }
            && p == crate::paths::spec_resolve(root, cp@));
    assert(a1[b0] == a0[b0]);
}

/// The metadata of the first snapshot document at the given path, or
/// an empty object when the snapshot holds none.
pub open spec fn spec_snapshot_meta_at(s: Seq<PromptData>, p: Seq<char>) -> Seq<(Seq<char>, JVal)>
    decreases s.len(),
{
    if s.len() == 0 {
        Seq::empty()
    } else if s[0].path@ == p {
        s[0].meta@
    } else {
        spec_snapshot_meta_at(s.drop_first(), p)
    }
}

/// Outside the six merged fields and the update moment, the metadata
/// agrees with the base document's.
pub open spec fn spec_overwrite_preserves(
    m2: Seq<(Seq<char>, JVal)>,
    base: Seq<(Seq<char>, JVal)>,
) -> bool {
    forall|k2: Seq<char>|
        k2 != "tags"@ && k2 != "type"@ && k2 != "model_config"@ && k2 != "author"@ && k2
            != "version"@ && k2 != "is_favorite"@ && k2 != "updated_at"@ ==> #[trigger] jlookup(
            m2,
            k2,
        ) == jlookup(base, k2)
}

/// The overwrite's path and metadata come from a snapshot document:
/// the path is its resolved directory and the metadata preserves it
/// outside the merged fields.
pub open spec fn spec_overwrites_snapshot(
    snapshot: Seq<PromptData>,
    root: Seq<char>,
    p: Seq<char>,
    m2: Seq<(Seq<char>, JVal)>,
) -> bool {
    exists|sk: int|
        0 <= sk < snapshot.len() && p == crate::paths::spec_resolve(
            root,
            (#[trigger] snapshot[sk])@.path,
        ) && spec_overwrite_preserves(m2, spec_snapshot_meta_at(snapshot, snapshot[sk]@.path))
}

/// An overwrite takes the record's tags, type, model configuration,
/// author, version and favourite flag where the record carries them,
/// and records a text update moment.
pub open spec fn spec_overwrite_takes_record(
    m2: Seq<(Seq<char>, JVal)>,
    rec: Seq<(Seq<char>, JVal)>,
) -> bool {
    &&& (jlookup(rec, "tags"@) is Some ==> jlookup(m2, "tags"@) == jlookup(rec, "tags"@))
    &&& (jlookup(rec, "type"@) is Some ==> jlookup(m2, "type"@) == jlookup(rec, "type"@))
    &&& (jlookup(rec, "model_config"@) is Some ==> jlookup(m2, "model_config"@) == jlookup(
        rec,
        "model_config"@,
    ))
    &&& (jlookup(rec, "author"@) is Some ==> jlookup(m2, "author"@) == jlookup(rec, "author"@))
    &&& (jlookup(rec, "version"@) is Some ==> jlookup(m2, "version"@) == jlookup(rec, "version"@))
    &&& (jlookup(rec, "is_favorite"@) is Some ==> jlookup(m2, "is_favorite"@) == jlookup(
        rec,
        "is_favorite"@,
    ))
    &&& (jlookup(m2, "updated_at"@) matches Some(JVal::Str(_)))
}

/// How many details report the given outcome.
pub open spec fn spec_count_status(s: Seq<ImportResultDetails>, w: Seq<char>) -> int
    decreases s.len(),
{
    if s.len() == 0 {
        0
    } else {
        spec_count_status(s.drop_last(), w) + (if s.last().status@ == w {
            1int
        } else {
            0
        })
    }
}

proof fn lemma_count_status_push(s: Seq<ImportResultDetails>, d: ImportResultDetails, w: Seq<char>)
    ensures
        spec_count_status(s.push(d), w) == spec_count_status(s, w) + (if d.status@ == w {
            1int
        } else {
            0
        }),
{
    assert(s.push(d).drop_last() =~= s);
    assert(s.push(d).last() == d);
}

/// Ground facts about the strategy words: enough to tell them apart.
pub proof fn lemma_strategy_literals()
    ensures
        "skip"@.len() == 4 && "skip"@[0] == 's',
        "overwrite"@.len() == 9 && "overwrite"@[0] == 'o',
        "rename"@.len() == 6 && "rename"@[0] == 'r',
{
    reveal_strlit("skip");
    reveal_strlit("overwrite");
    reveal_strlit("rename");
}

/// Ground facts about the three outcome words: enough to tell any two
/// of them apart.
pub proof fn lemma_status_literals()
    ensures
        "success"@.len() == 7 && "success"@[0] == 's' && "success"@[1] == 'u',
        "failed"@.len() == 6 && "failed"@[0] == 'f',
        "skipped"@.len() == 7 && "skipped"@[0] == 's' && "skipped"@[1] == 'k',
{
    reveal_strlit("success");
    reveal_strlit("failed");
    reveal_strlit("skipped");
}

/// A create action's directory path.
pub open spec fn spec_create_path(a: ImportAction) -> Option<Seq<char>> {
    match a {
        ImportAction::Create { path, .. } => Some(path@),
        ImportAction::Overwrite { .. } => None,
    }
}

/// The first key list entry matching the key, with its stored path.
fn assoc_lookup(keys: &Vec<String>, key_paths: &Vec<String>, key: &str) -> (r: Option<(
    usize,
    String,
)>)
    requires
        keys@.len() == key_paths@.len(),
    ensures
        match r {
            Some(qp) => qp.0 < keys@.len() && keys@[qp.0 as int]@ == key@ && qp.1@
                == key_paths@[qp.0 as int]@,
            None => forall|q: int| 0 <= q < keys@.len() ==> (#[trigger] keys@[q])@ != key@,
        },
{
    let n = keys.len();
    let mut q: usize = 0;
    while q < n
        invariant
            q <= n,
            n == keys@.len(),
            keys@.len() == key_paths@.len(),
            forall|w: int| 0 <= w < q ==> (#[trigger] keys@[w])@ != key@,
        decreases n - q,
    {
        if streq(keys[q].as_str(), key) {
            return Some((q, key_paths[q].clone()));
        }
        q = q + 1;
    }
    None
}

/// The metadata of the first snapshot document at the given path, or
/// an empty object when the snapshot holds none.
fn find_snapshot_meta(snapshot: &Vec<PromptData>, path: &str) -> (r: JsonObj)
    ensures
        r@ == spec_snapshot_meta_at(snapshot@, path@),
{
    let n = snapshot.len();
    proof {
        assert(snapshot@.skip(0) =~= snapshot@);
    }
    let mut sj: usize = 0;
    while sj < n
        invariant
            sj <= n,
            n == snapshot@.len(),
            spec_snapshot_meta_at(snapshot@, path@) == spec_snapshot_meta_at(
                snapshot@.skip(sj as int),
                path@,
            ),
        decreases n - sj,
    {
        proof {
            assert(snapshot@.skip(sj as int)[0] == snapshot@[sj as int]);
        }
        if streq(snapshot[sj].path.as_str(), path) {
            return obj_clone(&snapshot[sj].meta);
        }
        proof {
            assert(snapshot@.skip(sj as int).drop_first() =~= snapshot@.skip(sj + 1));
        }
        sj = sj + 1;
    }
    proof {
        assert(snapshot@.skip(n as int) =~= Seq::<PromptData>::empty());
    }
    let empty = JsonObj { entries: Vec::new() };
    proof {
        assert(empty@ =~= Seq::<(Seq<char>, JVal)>::empty());
    }
    empty
}

/// Imports the records in order. A record without a title fails; a
/// title already present in its target category is skipped, merged
/// into the existing document, or renamed with a numbered marker,
/// as the strategy says; everything else becomes a fresh document
/// under a deduplicated directory. Every fresh directory is distinct
/// from the directories that existed and from the other fresh ones.
#[verifier::rlimit(100)]
#[verifier::spinoff_prover]
pub fn import_prompts(
    root: &str,
    records: &Vec<JsonObj>,
    category_path: Option<&String>,
    conflict_strategy: Option<&String>,
    snapshot: &Vec<PromptData>,
    existing_dirs: &Vec<String>,
) -> (r: (ImportResults, Vec<ImportAction>))
    requires
        snapshot@.len() + records@.len() + 2 <= u64::MAX,
        existing_dirs@.len() + records@.len() + 3 <= u64::MAX,
    ensures
        r.0.total == records@.len(),
        r.0.details@.len() == records@.len(),
        forall|j: int| 0 <= j < r.0.details@.len() ==> (#[trigger] r.0.details@[j]).index == j,
        r.0.success + r.0.failed + r.0.skipped == records@.len(),
        r.1@.len() == r.0.success,
        r.0.success == spec_count_status(r.0.details@, "success"@),
        r.0.failed == spec_count_status(r.0.details@, "failed"@),
        r.0.skipped == spec_count_status(r.0.details@, "skipped"@),
        forall|j: int|
            0 <= j < records@.len() ==> (((#[trigger] r.0.details@[j]).status)@ == "failed"@
                <==> trimmed_of(spec_record_title((records@[j])@)).len() == 0),
        forall|j: int|
            0 <= j < records@.len() && ((#[trigger] r.0.details@[j]).status)@ == "failed"@
                ==> (r.0.details@[j].error matches Some(e) && e@ == "Title is required"@)
                && r.0.details@[j].title@ == "(\u{65e0}\u{6807}\u{9898})"@,
        forall|j: int|
            0 <= j < records@.len() && ((#[trigger] r.0.details@[j]).status)@ == "success"@
                ==> (r.0.details@[j].title@ == trimmed_of(spec_record_title((records@[j])@))
                || exists|n: int|
                    n >= 1 && r.0.details@[j].title@ == trimmed_of(
                        spec_record_title((records@[j])@),
                    ) + " (imported "@ + crate::strutil::dec_str(n) + ")"@),
        forall|a: int|
            0 <= a < r.1@.len() ==> (match #[trigger] r.1@[a] {
                ImportAction::Create { index, path, meta, content } => {
                    &&& index < records@.len()
                    &&& r.0.details@[index as int].status@ == "success"@
                    &&& spec_overlays_record(meta@, (records@[index as int])@)
                    &&& jlookup(meta@, "title"@) == Some(
                        JVal::Str(r.0.details@[index as int].title@),
                    )
                    &&& content@ == spec_record_content((records@[index as int])@)
                    &&& (path@ == crate::paths::spec_join(
                        spec_import_target(root@, category_path, (records@[index as int])@),
                        crate::slug::spec_slug(r.0.details@[index as int].title@),
                    ) || exists|n: int|
                        n >= 2 && path@ == crate::naming::spec_numbered(
                            crate::paths::spec_join(
                                spec_import_target(
                                    root@,
                                    category_path,
                                    (records@[index as int])@,
                                ),
                                crate::slug::spec_slug(r.0.details@[index as int].title@),
                            ) + seq!['_'],
                            n,
                            Seq::empty(),
                        ))
                },
                ImportAction::Overwrite { index, path, meta, content } => {
                    &&& index < records@.len()
                    &&& r.0.details@[index as int].status@ == "success"@
                    &&& spec_overwrite_takes_record(meta@, (records@[index as int])@)
                    &&& content@ == spec_record_content((records@[index as int])@)
                    &&& (spec_overwrites_snapshot(snapshot@, root@, path@, meta@)
                        || spec_created_path(r.1@, root@, path@))
                },
            }),
        (match conflict_strategy {
            Some(st) => st@ == "skip"@,
            None => false,
        }) ==> forall|a: int|
            0 <= a < r.1@.len() ==> (#[trigger] r.1@[a]) matches ImportAction::Create { .. },
        forall|j: int|
            0 <= j < records@.len() && (match conflict_strategy {
                Some(st) => st@ == "skip"@,
                None => false,
            }) && trimmed_of(spec_record_title((records@[j])@)).len() > 0
                && spec_snapshot_collides(
                snapshot@,
                spec_import_key(root@, category_path, (records@[j])@),
            ) ==> ((#[trigger] r.0.details@[j]).status)@ == "skipped"@,
        forall|j: int|
            0 <= j < records@.len() ==> (((#[trigger] r.0.details@[j]).status)@ == "skipped"@
                ==> (match conflict_strategy {
                    Some(st) => st@ == "skip"@,
                    None => false,
                })),
        forall|j: int|
            0 <= j < records@.len() ==> ((#[trigger] r.0.details@[j]).status)@ == "success"@
                || r.0.details@[j].status@ == "failed"@ || r.0.details@[j].status@ == "skipped"@,
        forall|a: int|
            0 <= a < r.1@.len() ==> (match spec_create_path(#[trigger] r.1@[a]) {
                Some(p) => forall|j: int|
                    0 <= j < existing_dirs@.len() ==> (#[trigger] existing_dirs@[j])@ != p,
                None => true,
            }),
        forall|a: int, b: int|
            0 <= a < b < r.1@.len() ==> (match (
                spec_create_path(#[trigger] r.1@[a]),
                spec_create_path(#[trigger] r.1@[b]),
            ) {
                (Some(pa), Some(pb)) => pa != pb,
                _ => true,
            }),
{
    let strat_skip: bool = match conflict_strategy {
        Some(s) => streq(s.as_str(), "skip"),
        None => false,
    };
    let strat_overwrite: bool = match conflict_strategy {
        Some(s) => streq(s.as_str(), "overwrite"),
        None => false,
    };
    let mut keys: Vec<String> = Vec::new();
    let mut key_paths: Vec<String> = Vec::new();
    let mut si: usize = 0;
    while si < snapshot.len()
        invariant
            si <= snapshot@.len(),
            keys@.len() == key_paths@.len(),
            keys@.len() == si,
            forall|q: int|
                0 <= q < si ==> (#[trigger] keys@[q])@ == spec_snapshot_key((snapshot@[q])@),
            forall|q: int| 0 <= q < si ==> (#[trigger] key_paths@[q])@ == snapshot@[q].path@,
        decreases snapshot@.len() - si,
    {
        let title: String = match snapshot[si].meta.get_str("title") {
            Some(t) => t.clone(),
            None => String::new(),
        };
        let cat: String = match snapshot[si].meta.get_str("category_path") {
            Some(c) => c.clone(),
            None => String::new(),
        };
        let with_sep = concat_str(cat.as_str(), ":");
        let key = concat_str(with_sep.as_str(), title.as_str());
        proof {
            assert(key@ =~= spec_snapshot_key((snapshot@[si as int])@));
        }
        keys.push(key);
        key_paths.push(snapshot[si].path.clone());
        si = si + 1;
    }
    let base_category: Option<String> = match category_path {
        Some(p) => Some(resolve_path(root, p.as_str())),
        None => None,
    };
    proof {
        match category_path {
            Some(p) => {
                assert(base_category matches Some(b) && b@ == crate::paths::spec_resolve(
                    root@,
                    p@,
                ));
            },
            None => {
                assert(base_category is None);
            },
        }
    }
    let mut dirs = clone_strings(existing_dirs);
    let ghost initial_dirs = existing_dirs@;
    let mut success: usize = 0;
    let mut failed: usize = 0;
    let mut skipped: usize = 0;
    let mut details: Vec<ImportResultDetails> = Vec::new();
    let mut actions: Vec<ImportAction> = Vec::new();
    let n = records.len();
    let mut i: usize = 0;
    while i < n
        invariant
            i <= n,
            n == records@.len(),
            snapshot@.len() + records@.len() + 2 <= u64::MAX,
            existing_dirs@.len() + records@.len() + 3 <= u64::MAX,
            initial_dirs == existing_dirs@,
            keys@.len() == key_paths@.len(),
            keys@.len() <= snapshot@.len() + i,
            keys@.len() >= snapshot@.len(),
            forall|q: int|
                0 <= q < snapshot@.len() ==> (#[trigger] keys@[q])@ == spec_snapshot_key(
                    (snapshot@[q])@,
                ),
            forall|q: int|
                0 <= q < snapshot@.len() ==> (#[trigger] key_paths@[q])@ == snapshot@[q].path@,
            forall|q: int|
                snapshot@.len() <= q < key_paths@.len() ==> spec_created_path(
                    actions@,
                    root@,
                    crate::paths::spec_resolve(root@, (#[trigger] key_paths@[q])@),
                ),
            forall|j: int|
                0 <= j < details@.len() && strat_skip && trimmed_of(
                    spec_record_title((records@[j])@),
                ).len() > 0 && spec_snapshot_collides(
                    snapshot@,
                    spec_import_key(root@, category_path, (records@[j])@),
                ) ==> ((#[trigger] details@[j]).status)@ == "skipped"@,
            dirs@.len() <= existing_dirs@.len() + i,
            dirs@.len() >= existing_dirs@.len(),
            forall|j: int| 0 <= j < initial_dirs.len() ==> (#[trigger] dirs@[j])@
                == initial_dirs[j]@,
            success + failed + skipped == i,
            details@.len() == i,
            actions@.len() == success,
            strat_skip == (match conflict_strategy {
                Some(st) => st@ == "skip"@,
                None => false,
            }),
            forall|j: int| 0 <= j < details@.len() ==> (#[trigger] details@[j]).index == j,
            (match category_path {
                Some(p) => base_category matches Some(b) && b@ == crate::paths::spec_resolve(
                    root@,
                    p@,
                ),
                None => base_category is None,
            }),
            success == spec_count_status(details@, "success"@),
            failed == spec_count_status(details@, "failed"@),
            skipped == spec_count_status(details@, "skipped"@),
            forall|j: int|
                0 <= j < details@.len() && ((#[trigger] details@[j]).status)@ == "failed"@
                    ==> (details@[j].error matches Some(e) && e@ == "Title is required"@)
                    && details@[j].title@ == "(\u{65e0}\u{6807}\u{9898})"@,
            forall|j: int|
                0 <= j < details@.len() && ((#[trigger] details@[j]).status)@ == "success"@
                    ==> (details@[j].title@ == trimmed_of(spec_record_title((records@[j])@))
                    || exists|n: int|
                        n >= 1 && details@[j].title@ == trimmed_of(
                            spec_record_title((records@[j])@),
                        ) + " (imported "@ + crate::strutil::dec_str(n) + ")"@),
            forall|a: int|
                0 <= a < actions@.len() ==> (match #[trigger] actions@[a] {
                    ImportAction::Create { index, path, meta, content } => {
                        &&& index < records@.len()
                        &&& (index as int) < details@.len()
                        &&& details@[index as int].status@ == "success"@
                        &&& spec_overlays_record(meta@, (records@[index as int])@)
                        &&& jlookup(meta@, "title"@) == Some(
                            JVal::Str(details@[index as int].title@),
                        )
                        &&& content@ == spec_record_content((records@[index as int])@)
                        &&& (path@ == crate::paths::spec_join(
                            spec_import_target(root@, category_path, (records@[index as int])@),
                            crate::slug::spec_slug(details@[index as int].title@),
                        ) || exists|nx: int|
                            nx >= 2 && path@ == crate::naming::spec_numbered(
                                crate::paths::spec_join(
                                    spec_import_target(
                                        root@,
                                        category_path,
                                        (records@[index as int])@,
                                    ),
                                    crate::slug::spec_slug(details@[index as int].title@),
                                ) + seq!['_'],
                                nx,
                                Seq::empty(),
                            ))
                    },
                    ImportAction::Overwrite { index, path, meta, content } => {
                        &&& index < records@.len()
                        &&& (index as int) < details@.len()
                        &&& details@[index as int].status@ == "success"@
                        &&& spec_overwrite_takes_record(meta@, (records@[index as int])@)
                        &&& content@ == spec_record_content((records@[index as int])@)
                        &&& (spec_overwrites_snapshot(snapshot@, root@, path@, meta@)
                            || spec_created_path(actions@, root@, path@))
                    },
                }),
            strat_skip ==> forall|a: int|
                0 <= a < actions@.len() ==> (#[trigger] actions@[a])
                    matches ImportAction::Create { .. },
            forall|j: int|
                0 <= j < details@.len() ==> (((#[trigger] details@[j]).status)@ == "failed"@
                    <==> trimmed_of(spec_record_title((records@[j])@)).len() == 0),
            forall|j: int|
                0 <= j < details@.len() ==> (((#[trigger] details@[j]).status)@ == "skipped"@
                    ==> strat_skip),
            forall|j: int|
                0 <= j < details@.len() ==> ((#[trigger] details@[j]).status)@ == "success"@
                    || details@[j].status@ == "failed"@ || details@[j].status@ == "skipped"@,
            forall|a: int|
                0 <= a < actions@.len() ==> (match spec_create_path(#[trigger] actions@[a]) {
                    Some(p) => exists|j: int| 0 <= j < dirs@.len() && (#[trigger] dirs@[j])@ == p,
                    None => true,
                }),
            forall|a: int|
                0 <= a < actions@.len() ==> (match spec_create_path(#[trigger] actions@[a]) {
                    Some(p) => forall|j: int|
                        0 <= j < initial_dirs.len() ==> (#[trigger] initial_dirs[j])@ != p,
                    None => true,
                }),
            forall|a: int, b: int|
                0 <= a < b < actions@.len() ==> (match (
                    spec_create_path(#[trigger] actions@[a]),
                    spec_create_path(#[trigger] actions@[b]),
                ) {
                    (Some(pa), Some(pb)) => pa != pb,
                    _ => true,
                }),
        decreases n - i,
    {
        proof {
            lemma_status_literals();
        }
        let title_raw: String = match records[i].get_str("title") {
            Some(t) => t.clone(),
            None => String::new(),
        };
        proof {
            assert(title_raw@ == spec_record_title((records@[i as int])@));
        }
        let title_trimmed = trim_str(title_raw.as_str());
        let title = title_trimmed.to_owned();
        let title_chars = chars_vec(title.as_str());
        if title_chars.len() == 0 {
            failed = failed + 1;
            let ghost details0 = details@;
            details.push(
                ImportResultDetails {
                    index: i,
                    title: String::from_str("(\u{65e0}\u{6807}\u{9898})"),
                    status: String::from_str("failed"),
                    error: Some(String::from_str("Title is required")),
                },
            );
            proof {
                assert(forall|j: int|
                    0 <= j < details0.len() ==> #[trigger] details@[j] == details0[j]);
                let d = details@[details@.len() - 1];
                lemma_count_status_push(details0, d, "success"@);
                lemma_count_status_push(details0, d, "failed"@);
                lemma_count_status_push(details0, d, "skipped"@);
            }
            i = i + 1;
            continue ;
        }
        let prompt_category: String = match records[i].get_str("category_path") {
            Some(c) => c.clone(),
            None => String::new(),
        };
        let normalized = normalize_category_path(prompt_category.as_str());
        let norm_chars = chars_vec(normalized.as_str());
        let target_category: String = match &base_category {
            Some(b) => {
                if norm_chars.len() == 0 {
                    b.clone()
                } else {
                    join_path(b.as_str(), normalized.as_str())
                }
            },
            None => {
                if norm_chars.len() == 0 {
                    join_path(root, "\u{516c}\u{5171}")
                } else {
                    join_path(root, normalized.as_str())
                }
            },
        };
        proof {
            assert(prompt_category@ == spec_record_category((records@[i as int])@));
            assert(target_category@ == spec_import_target(
                root@,
                category_path,
                (records@[i as int])@,
            ));
        }
        let cat_sep = concat_str(target_category.as_str(), ":");
        let base_key = concat_str(cat_sep.as_str(), title.as_str());
        proof {
            assert(base_key@ =~= spec_import_key(root@, category_path, (records@[i as int])@));
        }
        let mut final_title = title;
        let mut key = base_key;
        let ghost base_key_view = key@;
        let ghost keys_at_check = keys@;
        if vec_contains_str(&keys, key.as_str()) {
            if strat_skip {
                skipped = skipped + 1;
                let ghost details0 = details@;
                details.push(
                    ImportResultDetails {
                        index: i,
                        title: final_title,
                        status: String::from_str("skipped"),
                        error: None,
                    },
                );
                proof {
                    assert(forall|j: int|
                        0 <= j < details0.len() ==> #[trigger] details@[j] == details0[j]);
                    let d = details@[details@.len() - 1];
                    lemma_count_status_push(details0, d, "success"@);
                    lemma_count_status_push(details0, d, "failed"@);
                    lemma_count_status_push(details0, d, "skipped"@);
                }
                i = i + 1;
                continue ;
            }
            if strat_overwrite {
                match assoc_lookup(&keys, &key_paths, key.as_str()) {
                    Some((kq, p)) => {
                        let resolved = resolve_path(root, p.as_str());
                        proof {
                            if kq < snapshot.len() {
                                assert(key_paths@[kq as int]@ == snapshot@[kq as int].path@);
                                assert(resolved@ == crate::paths::spec_resolve(
                                    root@,
                                    snapshot@[kq as int].path@,
                                ));
                            } else {
                                assert(spec_created_path(
                                    actions@,
                                    root@,
                                    crate::paths::spec_resolve(root@, key_paths@[kq as int]@),
                                ));
                                assert(resolved@ == crate::paths::spec_resolve(
                                    root@,
                                    key_paths@[kq as int]@,
                                ));
                            }
                        }
                        let existing_meta = find_snapshot_meta(&snapshot, p.as_str());
                        let now = now_rfc3339();
                        let m = overwrite_build_meta(&existing_meta, &records[i], now.as_str());
                        let content: String = match records[i].get_str("content") {
                            Some(c) => c.clone(),
                            None => String::new(),
                        };
                        proof {
                            lemma_strategy_literals();
                            assert(!strat_skip);
                            assert(spec_overwrite_takes_record(m@, (records@[i as int])@));
                            assert(content@ == spec_record_content((records@[i as int])@));
                            if kq < snapshot.len() {
                                assert(p@ == (snapshot@[kq as int])@.path);
                                assert(existing_meta@ == spec_snapshot_meta_at(
                                    snapshot@,
                                    (snapshot@[kq as int])@.path,
                                ));
                                assert(spec_overwrite_preserves(m@, existing_meta@));
                                assert(spec_overwrites_snapshot(
                                    snapshot@,
                                    root@,
                                    resolved@,
                                    m@,
                                ));
                            }
                        }
                        let ghost actions0 = actions@;
                        let ghost details0 = details@;
                        actions.push(
                            ImportAction::Overwrite { index: i, path: resolved, meta: m, content },
                        );
                        success = success + 1;
                        details.push(
                            ImportResultDetails {
                                index: i,
                                title: final_title,
                                status: String::from_str("success"),
                                error: None,
                            },
                        );
                        proof {
                            assert(forall|a: int|
                                0 <= a < actions0.len() ==> #[trigger] actions@[a]
                                    == actions0[a]);
                            assert(forall|j: int|
                                0 <= j < details0.len() ==> #[trigger] details@[j]
                                    == details0[j]);
                            let d = details@[details@.len() - 1];
                            lemma_count_status_push(details0, d, "success"@);
                            lemma_count_status_push(details0, d, "failed"@);
                            lemma_count_status_push(details0, d, "skipped"@);
                            assert forall|q: int|
                                snapshot@.len() <= q < key_paths@.len() implies spec_created_path(
                                actions@,
                                root@,
                                crate::paths::spec_resolve(root@, (#[trigger] key_paths@[q])@),
                            ) by {
                                lemma_created_path_grows(
                                    actions0,
                                    actions@,
                                    root@,
                                    crate::paths::spec_resolve(root@, key_paths@[q]@),
                                );
                            }
                            if spec_created_path(actions0, root@, resolved@) {
                                lemma_created_path_grows(actions0, actions@, root@, resolved@);
                            }
                            assert forall|a: int| 0 <= a < actions@.len() implies (
                            match #[trigger] actions@[a] {
                                ImportAction::Overwrite { path, meta, .. } => {
                                    spec_overwrites_snapshot(snapshot@, root@, path@, meta@)
                                        || spec_created_path(actions@, root@, path@)
                                },
                                _ => true,
                            }) by {
                                if a < actions0.len() {
                                    match actions0[a] {
                                        ImportAction::Overwrite { path, .. } => {
                                            if spec_created_path(actions0, root@, path@) {
                                                lemma_created_path_grows(
                                                    actions0,
                                                    actions@,
                                                    root@,
                                                    path@,
                                                );
                                            }
                                        },
                                        _ => {},
                                    }
                                }
                            }
                        }
                    },
                    None => {
                        // The key was found in the list a moment ago,
                        // so the lookup cannot have missed it.
                        proof {
                            assert(false);
                        }
                        failed = failed + 1;
                        details.push(
                            ImportResultDetails {
                                index: i,
                                title: final_title,
                                status: String::from_str("failed"),
                                error: Some(String::from_str("Overwrite failed")),
                            },
                        );
                    },
                }
                i = i + 1;
                continue ;
            }
            let stem = concat_str(key.as_str(), " (imported ");
            let (cand_key, nn) = fresh_numbered(stem.as_str(), ")", 1, &keys);
            let num = crate::strutil::u64_to_string(nn);
            let t1 = concat_str(final_title.as_str(), " (imported ");
            let t2 = concat_str(t1.as_str(), num.as_str());
            final_title = concat_str(t2.as_str(), ")");
            key = cand_key;
            proof {
                assert(final_title@ =~= trimmed_of(spec_record_title((records@[i as int])@))
                    + " (imported "@ + crate::strutil::dec_str(nn as int) + ")"@);
            }
        }
        let slug = title_to_slug(final_title.as_str());
        let prompt_path = fresh_doc_path(target_category.as_str(), slug.as_str(), &dirs);
        let id = new_uuid();
        let now = now_rfc3339();
        let m = import_build_meta(
            final_title.as_str(),
            slug.as_str(),
            target_category.as_str(),
            &records[i],
            id.as_str(),
            now.as_str(),
        );
        let content: String = match records[i].get_str("content") {
            Some(c) => c.clone(),
            None => String::new(),
        };
        proof {
            assert(content@ == spec_record_content((records@[i as int])@));
        }
        let ghost old_actions = actions@;
        let ghost old_dirs = dirs@;
        let ghost old_details = details@;
        actions.push(
            ImportAction::Create { index: i, path: prompt_path.clone(), meta: m, content },
        );
        dirs.push(prompt_path.clone());
        keys.push(key);
        key_paths.push(prompt_path);
        success = success + 1;
        details.push(
            ImportResultDetails {
                index: i,
                title: final_title,
                status: String::from_str("success"),
                error: None,
            },
        );
        proof {
            assert(forall|j: int|
                0 <= j < old_details.len() ==> #[trigger] details@[j] == old_details[j]);
            let d = details@[details@.len() - 1];
            lemma_count_status_push(old_details, d, "success"@);
            lemma_count_status_push(old_details, d, "failed"@);
            lemma_count_status_push(old_details, d, "skipped"@);
            assert(forall|a: int|
                0 <= a < old_actions.len() ==> #[trigger] actions@[a] == old_actions[a]);
            assert(forall|j: int| 0 <= j < old_dirs.len() ==> #[trigger] dirs@[j] == old_dirs[j]);
            let newest = actions@.len() - 1;
            assert(dirs@[dirs@.len() - 1]@ == spec_create_path(actions@[newest]).unwrap());
            assert forall|a: int| 0 <= a < actions@.len() implies (match spec_create_path(
                #[trigger] actions@[a],
            ) {
                Some(p) => exists|j: int| 0 <= j < dirs@.len() && (#[trigger] dirs@[j])@ == p,
                None => true,
            }) by {
                if a < newest {
                    match spec_create_path(old_actions[a]) {
                        Some(p) => {
                            let j0 = choose|j: int|
                                0 <= j < old_dirs.len() && (#[trigger] old_dirs[j])@ == p;
                            assert(dirs@[j0]@ == p);
                        },
                        None => {},
                    }
                } else {
                    assert(dirs@[dirs@.len() - 1]@ == spec_create_path(actions@[a]).unwrap());
                }
            }
            assert forall|a: int| 0 <= a < actions@.len() implies (match spec_create_path(
                #[trigger] actions@[a],
            ) {
                Some(p) => forall|j: int|
                    0 <= j < initial_dirs.len() ==> (#[trigger] initial_dirs[j])@ != p,
                None => true,
            }) by {
                if a == newest {
                    assert forall|j: int| 0 <= j < initial_dirs.len() implies (
                    #[trigger] initial_dirs[j])@ != spec_create_path(actions@[a]).unwrap() by {
                        assert(old_dirs[j]@ == initial_dirs[j]@);
                    }
                }
            }
            assert forall|q: int|
                snapshot@.len() <= q < key_paths@.len() implies spec_created_path(
                actions@,
                root@,
                crate::paths::spec_resolve(root@, (#[trigger] key_paths@[q])@),
            ) by {
                if q < key_paths@.len() - 1 {
                    lemma_created_path_grows(
                        old_actions,
                        actions@,
                        root@,
                        crate::paths::spec_resolve(root@, key_paths@[q]@),
                    );
                } else {
                    assert(actions@[newest] matches ImportAction::Create { path: cp, .. }
                        && crate::paths::spec_resolve(root@, key_paths@[q]@)
                        == crate::paths::spec_resolve(root@, cp@));
                }
            }
            assert forall|a: int| 0 <= a < actions@.len() implies (match #[trigger] actions@[a] {
                ImportAction::Overwrite { index, path, meta, content } => {
                    spec_overwrites_snapshot(snapshot@, root@, path@, meta@)
                        || spec_created_path(actions@, root@, path@)
                },
                _ => true,
            }) by {
                if a < newest {
                    match actions@[a] {
                        ImportAction::Overwrite { path, .. } => {
                            if spec_created_path(old_actions, root@, path@) {
                                lemma_created_path_grows(old_actions, actions@, root@, path@);
                            }
                        },
                        _ => {},
                    }
                }
            }
            if strat_skip {
                assert forall|j: int|
                    0 <= j < details@.len() && strat_skip && trimmed_of(
                        spec_record_title((records@[j])@),
                    ).len() > 0 && spec_snapshot_collides(
                        snapshot@,
                        spec_import_key(root@, category_path, (records@[j])@),
                    ) implies ((#[trigger] details@[j]).status)@ == "skipped"@ by {
                    if j == i {
                        // Under the skip strategy this record reached
                        // creation, so its key collided with nothing.
                        if spec_snapshot_collides(snapshot@, base_key_view) {
                            let k0 = choose|k: int|
                                0 <= k < snapshot@.len() && spec_snapshot_key(
                                    (#[trigger] snapshot@[k])@,
                                ) == base_key_view;
                            assert(keys_at_check[k0]@ == base_key_view);
                        }
                        assert(false);
                    }
                }
            }
        }
        i = i + 1;
    }
    let results = ImportResults { total: n, success, failed, skipped, details };
    (results, actions)
}

} // verus!

verus! {

/// Round trip: exporting a document with its body and importing the
/// record back yields metadata whose tags, type, model configuration,
/// author, version and favourite flag are the original's, with the
/// documented export defaults standing in exactly where the original
/// lacked the field; the scheduled time and recurrence likewise pass
/// through; and the record carried the original body.
pub proof fn lemma_export_import_round_trip(
    doc: PromptRec,
    rec: Seq<(Seq<char>, JVal)>,
    m2: Seq<(Seq<char>, JVal)>,
    structured: bool,
    root: Seq<char>,
)
    requires
        spec_is_export_of(rec, doc, true, structured, root),
        spec_overlays_record(m2, rec),
    ensures
        jlookup(m2, "tags"@) == Some(
            match jlookup(doc.meta, "tags"@) {
                Some(v) => v,
                None => JVal::Arr(Seq::empty()),
            },
        ),
        jlookup(m2, "type"@) == Some(
            match jlookup(doc.meta, "type"@) {
                Some(v) => v,
                None => JVal::Str("NOTE"@),
            },
        ),
        jlookup(m2, "model_config"@) == Some(
            match jlookup(doc.meta, "model_config"@) {
                Some(v) => v,
                None => JVal::Obj(crate::meta::spec_default_model_config()),
            },
        ),
        jlookup(m2, "author"@) == Some(
            match jlookup(doc.meta, "author"@) {
                Some(v) => v,
                None => JVal::Str(Seq::empty()),
            },
        ),
        jlookup(m2, "version"@) == Some(
            match jlookup(doc.meta, "version"@) {
                Some(v) => v,
                None => JVal::Str("1.0.0"@),
            },
        ),
        jlookup(m2, "is_favorite"@) == Some(
            match jlookup(doc.meta, "is_favorite"@) {
                Some(v) => v,
                None => JVal::Bool(false),
            },
        ),
        jlookup(m2, "scheduled_time"@) == jlookup(doc.meta, "scheduled_time"@),
        jlookup(m2, "recurrence"@) == jlookup(doc.meta, "recurrence"@),
        jlookup(rec, "content"@) == Some(JVal::Str(doc.content)),
{
}

} // verus!
