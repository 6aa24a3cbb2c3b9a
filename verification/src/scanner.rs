//! The vault scanner's decision core: classifying documents, parsing
//! interval tasks out of metadata, the flat index keyed by document id,
//! and the rescan policy. The host walks the directories and hands the
//! parsed entries in.

use vstd::prelude::*;
use crate::json::{jlookup, obj_clone, JsonObj, JVal};
use crate::meta::{
    spec_interval_minutes, spec_is_interval_task, spec_last_notified, interval_minutes,
    is_interval_task, read_last_notified,
};
use crate::sched::{CachedTask, TaskRec};
use crate::strutil::streq;

verus! {

/// The error a vault scan reports.
#[derive(Debug)]
pub enum ScanError {
    Io(String),
}

/// The error parsing one document's metadata reports.
#[derive(Debug)]
pub enum ParseError {
    Io(String),
    Json(String),
    InvalidData,
}

/// The mathematical shape of one document in the index.
pub struct PromptRec {
    pub meta: Seq<(Seq<char>, JVal)>,
    pub content: Seq<char>,
    pub path: Seq<char>,
}

/// One document: its metadata, its body and the directory it sits in.
pub struct PromptData {
    pub meta: JsonObj,
    pub content: String,
    pub path: String,
}

impl View for PromptData {
    type V = PromptRec;

    open spec fn view(&self) -> PromptRec {
        PromptRec { meta: self.meta@, content: self.content@, path: self.path@ }
    }
}

/// A document equal, at the level of the model, to the given one.
pub fn prompt_clone(p: &PromptData) -> (r: PromptData)
    ensures
        r@ == p@,
{
    PromptData { meta: obj_clone(&p.meta), content: p.content.clone(), path: p.path.clone() }
}

/// The document id its metadata carries, when it is a string.
pub open spec fn spec_prompt_id(m: Seq<(Seq<char>, JVal)>) -> Option<Seq<char>> {
    match jlookup(m, "id"@) {
        Some(JVal::Str(id)) => Some(id),
        _ => None,
    }
}

/// The document id out of the metadata, when it carries one.
pub fn prompt_id(meta: &JsonObj) -> (r: Option<String>)
    ensures
        match r {
            Some(id) => spec_prompt_id(meta@) == Some(id@),
            None => spec_prompt_id(meta@) is None,
        },
{
    match meta.get_str("id") {
        Some(s) => Some(s.clone()),
        None => None,
    }
}

/// Whether a document's metadata parses to a scheduled task: the
/// interval filter must accept it and it must carry a string id.
pub open spec fn spec_parse_accepts(m: Seq<(Seq<char>, JVal)>) -> bool {
    spec_is_interval_task(m) && spec_prompt_id(m) is Some
}

/// The task record a document parses to.
pub open spec fn spec_parsed_task(dir: Seq<char>, m: Seq<(Seq<char>, JVal)>) -> TaskRec {
    TaskRec {
        id: spec_prompt_id(m).unwrap(),
        last_notified: spec_last_notified(m),
        interval_minutes: spec_interval_minutes(m),
        file_path: dir,
    }
}

/// Parses one document directory's metadata: documents the interval
/// filter rejects yield nothing; an accepted document without a string
/// id is invalid; otherwise the cached record is built, with a missing
/// or non-integer baseline read as zero.
pub fn parse_task(dir: &str, meta: &JsonObj) -> (r: Result<Option<CachedTask>, ParseError>)
    ensures
        match r {
            Ok(Some(t)) => spec_parse_accepts(meta@) && t@ == spec_parsed_task(dir@, meta@),
            Ok(None) => !spec_is_interval_task(meta@),
            Err(e) => spec_is_interval_task(meta@) && spec_prompt_id(meta@) is None && (
            e matches ParseError::InvalidData),
        },
{
    if !is_interval_task(meta) {
        return Ok(None);
    }
    match prompt_id(meta) {
        Some(id) => {
            let last_notified = read_last_notified(meta);
            let minutes = interval_minutes(meta);
            let t = CachedTask {
                id,
                last_notified,
                interval_minutes: minutes,
                file_path: dir.to_owned(),
            };
            Ok(Some(t))
        },
        None => Err(ParseError::InvalidData),
    }
}

/// The task records of the accepted documents, in order; rejected and
/// invalid documents contribute nothing.
pub open spec fn spec_scan(docs: Seq<(Seq<char>, Seq<(Seq<char>, JVal)>)>) -> Seq<TaskRec>
    decreases docs.len(),
{
    if docs.len() == 0 {
        Seq::empty()
    } else {
        let rest = spec_scan(docs.drop_first());
        if spec_parse_accepts(docs[0].1) {
            seq![spec_parsed_task(docs[0].0, docs[0].1)] + rest
        } else {
            rest
        }
    }
}

proof fn lemma_scan_concat(
    a: Seq<(Seq<char>, Seq<(Seq<char>, JVal)>)>,
    b: Seq<(Seq<char>, Seq<(Seq<char>, JVal)>)>,
)
    ensures
        spec_scan(a + b) == spec_scan(a) + spec_scan(b),
    decreases a.len(),
{
    if a.len() == 0 {
        assert(a + b =~= b);
        assert(spec_scan(a) + spec_scan(b) =~= spec_scan(b));
    } else {
        assert((a + b).drop_first() =~= a.drop_first() + b);
        assert((a + b)[0] == a[0]);
        assert((a + b).len() > 0);
        lemma_scan_concat(a.drop_first(), b);
        if spec_parse_accepts(a[0].1) {
            assert(spec_scan(a + b) =~= seq![spec_parsed_task(a[0].0, a[0].1)] + spec_scan(
                a.drop_first(),
            ) + spec_scan(b));
            assert(spec_scan(a) + spec_scan(b) =~= seq![spec_parsed_task(a[0].0, a[0].1)]
                + spec_scan(a.drop_first()) + spec_scan(b));
        }
    }
}

/// The view of a scanned document list: each directory path with its
/// metadata.
pub open spec fn doc_views(docs: Seq<(String, JsonObj)>) -> Seq<
    (Seq<char>, Seq<(Seq<char>, JVal)>),
> {
    docs.map_values(|d: (String, JsonObj)| (d.0@, d.1@))
}

/// Collects the interval tasks out of the scanned document directories,
/// in order. A document whose metadata the filter rejects, or which
/// lacks a string id, is skipped; the scan never aborts.
pub fn scan_vault(docs: &Vec<(String, JsonObj)>) -> (r: Vec<CachedTask>)
    ensures
        r@.map_values(|t: CachedTask| t@) == spec_scan(doc_views(docs@)),
{
    let ghost views = doc_views(docs@);
    let n = docs.len();
    let mut out: Vec<CachedTask> = Vec::new();
    let mut i: usize = 0;
    proof {
        assert(views.subrange(0, 0) =~= Seq::<(Seq<char>, Seq<(Seq<char>, JVal)>)>::empty());
        assert(out@.map_values(|t: CachedTask| t@) =~= spec_scan(views.subrange(0, 0)));
    }
    while i < n
        invariant
            i <= n,
            n == docs@.len(),
            views == doc_views(docs@),
            views.len() == n,
            out@.map_values(|t: CachedTask| t@) == spec_scan(views.subrange(0, i as int)),
        decreases n - i,
    {
        proof {
            assert(views.subrange(0, i + 1) =~= views.subrange(0, i as int)
                + seq![views[i as int]]);
            lemma_scan_concat(views.subrange(0, i as int), seq![views[i as int]]);
            assert(seq![views[i as int]].drop_first() =~= Seq::<
                (Seq<char>, Seq<(Seq<char>, JVal)>),
            >::empty());
            assert(spec_scan(Seq::<(Seq<char>, Seq<(Seq<char>, JVal)>)>::empty()) =~= Seq::<
                TaskRec,
            >::empty());
        }
        match parse_task(docs[i].0.as_str(), &docs[i].1) {
            Ok(Some(t)) => {
                proof {
                    assert(spec_scan(seq![views[i as int]]) =~= seq![spec_parsed_task(
                        views[i as int].0,
                        views[i as int].1,
                    )]);
                }
                out.push(t);
                proof {
                    assert(out@.map_values(|t: CachedTask| t@) =~= spec_scan(
                        views.subrange(0, i as int),
                    ) + seq![spec_parsed_task(views[i as int].0, views[i as int].1)]);
                }
            },
            Ok(None) => {
                proof {
                    assert(spec_scan(seq![views[i as int]]) =~= Seq::<TaskRec>::empty());
                    assert(out@.map_values(|t: CachedTask| t@) =~= spec_scan(
                        views.subrange(0, i + 1),
                    ));
                }
            },
            Err(_) => {
                proof {
                    assert(spec_scan(seq![views[i as int]]) =~= Seq::<TaskRec>::empty());
                    assert(out@.map_values(|t: CachedTask| t@) =~= spec_scan(
                        views.subrange(0, i + 1),
                    ));
                }
            },
        }
        i = i + 1;
    }
    proof {
        assert(views.subrange(0, n as int) =~= views);
    }
    out
}

/// The vault must be re-read when its directory has been modified
/// after the last scan.
pub fn should_rescan(modified: u64, last_scan_timestamp: u64) -> (r: bool)
    ensures
        r == (modified > last_scan_timestamp),
{
    modified > last_scan_timestamp
}

/// Replaces the cache contents with the scanned tasks.
pub fn update_cache(cache: &mut Vec<CachedTask>, tasks: &Vec<CachedTask>)
    ensures
        final(cache)@.map_values(|t: CachedTask| t@) == tasks@.map_values(|t: CachedTask| t@),
{
    let n = tasks.len();
    let mut out: Vec<CachedTask> = Vec::new();
    let mut i: usize = 0;
    while i < n
        invariant
            i <= n,
            n == tasks@.len(),
            out@.len() == i,
            forall|j: int| 0 <= j < i ==> (#[trigger] out@[j])@ == tasks@[j]@,
        decreases n - i,
    {
        let t = crate::sched::task_clone(&tasks[i]);
        out.push(t);
        i = i + 1;
    }
    *cache = out;
    proof {
        assert(final(cache)@.map_values(|t: CachedTask| t@) =~= tasks@.map_values(
            |t: CachedTask| t@,
        ));
    }
}

/// The document the index holds under this id, looked up from the
/// front; index construction keeps ids unique.
pub open spec fn spec_index_get(s: Seq<PromptRec>, id: Seq<char>) -> Option<PromptRec>
    decreases s.len(),
{
    if s.len() == 0 {
        None
    } else if spec_prompt_id(s[0].meta) == Some(id) {
        Some(s[0])
    } else {
        spec_index_get(s.drop_first(), id)
    }
}

/// Ids of the indexed documents are pairwise distinct.
pub open spec fn spec_index_unique(s: Seq<PromptRec>) -> bool {
    forall|i: int, j: int|
        0 <= i < j < s.len() ==> spec_prompt_id((#[trigger] s[i]).meta) != spec_prompt_id(
            (#[trigger] s[j]).meta,
        ) || spec_prompt_id(s[i].meta) is None
}

/// The last document in the sequence carrying this id, if any: the one
/// the index keeps when an id appears more than once.
pub open spec fn spec_last_with_id(s: Seq<PromptRec>, id: Seq<char>) -> Option<PromptRec>
    decreases s.len(),
{
    if s.len() == 0 {
        None
    } else if spec_prompt_id(s.last().meta) == Some(id) {
        Some(s.last())
    } else {
        spec_last_with_id(s.drop_last(), id)
    }
}

proof fn lemma_index_get_update(s: Seq<PromptRec>, k: int, x: PromptRec, id2: Seq<char>)
    requires
        0 <= k < s.len(),
        spec_prompt_id(s[k].meta) == spec_prompt_id(x.meta),
        spec_prompt_id(x.meta) is Some,
        forall|j: int| 0 <= j < k ==> spec_prompt_id((#[trigger] s[j]).meta) != spec_prompt_id(
            x.meta,
        ),
    ensures
        spec_index_get(s.update(k, x), spec_prompt_id(x.meta).unwrap()) == Some(x),
        Some(id2) != spec_prompt_id(x.meta) ==> spec_index_get(s.update(k, x), id2)
            == spec_index_get(s, id2),
    decreases k,
{
    let t = s.update(k, x);
    if k == 0 {
        assert(t[0] == x);
        if Some(id2) != spec_prompt_id(x.meta) {
            assert(t.drop_first() =~= s.drop_first());
        }
    } else {
        assert(t.drop_first() =~= s.drop_first().update(k - 1, x));
        lemma_index_get_update(s.drop_first(), k - 1, x, id2);
        assert(t[0] == s[0]);
    }
}

proof fn lemma_index_get_push(s: Seq<PromptRec>, x: PromptRec, id2: Seq<char>)
    requires
        spec_prompt_id(x.meta) is Some,
        forall|j: int| 0 <= j < s.len() ==> spec_prompt_id((#[trigger] s[j]).meta)
            != spec_prompt_id(x.meta),
    ensures
        spec_index_get(s.push(x), spec_prompt_id(x.meta).unwrap()) == Some(x),
        Some(id2) != spec_prompt_id(x.meta) ==> spec_index_get(s.push(x), id2) == spec_index_get(
            s,
            id2,
        ),
    decreases s.len(),
{
    if s.len() == 0 {
        assert(s.push(x)[0] == x);
        assert(s.push(x).drop_first() =~= s);
    } else {
        assert(s.push(x).drop_first() =~= s.drop_first().push(x));
        lemma_index_get_push(s.drop_first(), x, id2);
        assert(s.push(x)[0] == s[0]);
    }
}

proof fn lemma_last_with_id_push(s: Seq<PromptRec>, x: PromptRec, id: Seq<char>)
    ensures
        spec_last_with_id(s.push(x), id) == (if spec_prompt_id(x.meta) == Some(id) {
            Some(x)
        } else {
            spec_last_with_id(s, id)
        }),
{
    assert(s.push(x).last() == x);
    assert(s.push(x).drop_last() =~= s);
}

/// The view of a document list.
pub open spec fn prompt_views(s: Seq<PromptData>) -> Seq<PromptRec> {
    s.map_values(|p: PromptData| p@)
}

/// The first position whose document carries the given id, if any.
fn find_index_with_id(docs: &Vec<PromptData>, id: &str) -> (r: Option<usize>)
    ensures
        match r {
            Some(k) => k < docs@.len() && spec_prompt_id(prompt_views(docs@)[k as int].meta)
                == Some(id@) && forall|j: int|
                0 <= j < k ==> spec_prompt_id((#[trigger] prompt_views(docs@)[j]).meta) != Some(
                    id@,
                ),
            None => forall|j: int|
                0 <= j < docs@.len() ==> spec_prompt_id(
                    (#[trigger] prompt_views(docs@)[j]).meta,
                ) != Some(id@),
        },
{
    let n = docs.len();
    let mut k: usize = 0;
    while k < n
        invariant
            k <= n,
            n == docs@.len(),
            forall|j: int|
                0 <= j < k ==> spec_prompt_id((#[trigger] prompt_views(docs@)[j]).meta) != Some(
                    id@,
                ),
        decreases n - k,
    {
        let existing = prompt_id(&docs[k].meta);
        let hit = match &existing {
            Some(e) => streq(e.as_str(), id),
            None => false,
        };
        if hit {
            return Some(k);
        }
        k = k + 1;
    }
    None
}

/// Builds the flat index over the documents, keyed by id: a later
/// occurrence of an id replaces an earlier one, and a document without
/// a string id is left out.
pub fn build_flat_index(all: &Vec<PromptData>) -> (r: Vec<PromptData>)
    ensures
        spec_index_unique(prompt_views(r@)),
        forall|j: int|
            0 <= j < r@.len() ==> spec_prompt_id((#[trigger] prompt_views(r@)[j]).meta) is Some,
        forall|id: Seq<char>|
            #[trigger] spec_index_get(prompt_views(r@), id) == spec_last_with_id(
                prompt_views(all@),
                id,
            ),
{
    let ghost views = prompt_views(all@);
    let n = all.len();
    let mut out: Vec<PromptData> = Vec::new();
    let mut i: usize = 0;
    proof {
        assert(views.subrange(0, 0) =~= Seq::<PromptRec>::empty());
        assert forall|id: Seq<char>| #[trigger] spec_index_get(prompt_views(out@), id)
            == spec_last_with_id(views.subrange(0, 0), id) by {
            assert(prompt_views(out@) =~= Seq::<PromptRec>::empty());
        }
    }
    while i < n
        invariant
            i <= n,
            n == all@.len(),
            views == prompt_views(all@),
            views.len() == n,
            spec_index_unique(prompt_views(out@)),
            forall|j: int|
                0 <= j < out@.len() ==> spec_prompt_id(
                    (#[trigger] prompt_views(out@)[j]).meta,
                ) is Some,
            forall|id: Seq<char>|
                #[trigger] spec_index_get(prompt_views(out@), id) == spec_last_with_id(
                    views.subrange(0, i as int),
                    id,
                ),
        decreases n - i,
    {
        proof {
            assert(views.subrange(0, i + 1) =~= views.subrange(0, i as int).push(views[i as int]));
        }
        let doc_id: Option<String> = prompt_id(&all[i].meta);
        match doc_id {
            None => {
                proof {
                    assert forall|id: Seq<char>| #[trigger] spec_index_get(prompt_views(out@), id)
                        == spec_last_with_id(views.subrange(0, i + 1), id) by {
                        lemma_last_with_id_push(
                            views.subrange(0, i as int),
                            views[i as int],
                            id,
                        );
                    }
                }
            },
            Some(id_str) => {
                let copy = prompt_clone(&all[i]);
                let ghost old_out = prompt_views(out@);
                match find_index_with_id(&out, id_str.as_str()) {
                    Some(k) => {
                        out.set(k, copy);
                        proof {
                            let kk = k as int;
                            assert(prompt_views(out@) =~= old_out.update(kk, copy@));
                            lemma_index_get_update(old_out, kk, copy@, id_str@);
                            assert forall|id: Seq<char>| #[trigger] spec_index_get(
                                prompt_views(out@),
                                id,
                            ) == spec_last_with_id(views.subrange(0, i + 1), id) by {
                                lemma_index_get_update(old_out, kk, copy@, id);
                                lemma_last_with_id_push(
                                    views.subrange(0, i as int),
                                    views[i as int],
                                    id,
                                );
                            }
                            assert forall|a: int, b: int|
                                0 <= a < b < prompt_views(out@).len() implies spec_prompt_id(
                                (#[trigger] prompt_views(out@)[a]).meta,
                            ) != spec_prompt_id((#[trigger] prompt_views(out@)[b]).meta)
                                || spec_prompt_id(prompt_views(out@)[a].meta) is None by {
                                if a != kk && b != kk {
                                    assert(prompt_views(out@)[a] == old_out[a]);
                                    assert(prompt_views(out@)[b] == old_out[b]);
                                }
                            }
                        }
                    },
                    None => {
                        out.push(copy);
                        proof {
                            assert(prompt_views(out@) =~= old_out.push(copy@));
                            lemma_index_get_push(old_out, copy@, id_str@);
                            assert forall|id: Seq<char>| #[trigger] spec_index_get(
                                prompt_views(out@),
                                id,
                            ) == spec_last_with_id(views.subrange(0, i + 1), id) by {
                                lemma_index_get_push(old_out, copy@, id);
                                lemma_last_with_id_push(
                                    views.subrange(0, i as int),
                                    views[i as int],
                                    id,
                                );
                            }
                            assert forall|a: int, b: int|
                                0 <= a < b < prompt_views(out@).len() implies spec_prompt_id(
                                (#[trigger] prompt_views(out@)[a]).meta,
                            ) != spec_prompt_id((#[trigger] prompt_views(out@)[b]).meta)
                                || spec_prompt_id(prompt_views(out@)[a].meta) is None by {
                                if b < old_out.len() {
                                    assert(prompt_views(out@)[a] == old_out[a]);
                                    assert(prompt_views(out@)[b] == old_out[b]);
                                } else {
                                    assert(prompt_views(out@)[a] == old_out[a]);
                                    assert(prompt_views(out@)[b] == copy@);
                                }
                            }
                        }
                    },
                }
            },
        }
        i = i + 1;
    }
    proof {
        assert(views.subrange(0, n as int) =~= views);
    }
    out
}

} // verus!

verus! {


/// Appending a document appends its view.
pub proof fn lemma_prompt_views_push(s: Seq<PromptData>, x: PromptData)
    ensures
        prompt_views(s.push(x)) == prompt_views(s).push(x@),
{
    assert(prompt_views(s.push(x)) =~= prompt_views(s).push(x@));
}

/// The mathematical shape of a category subtree.
pub struct CatRec {
    pub name: Seq<char>,
    pub path: Seq<char>,
    pub children: Seq<CatRec>,
    pub prompts: Seq<PromptRec>,
}

/// One category directory: its name, its path, its subcategories and
/// the documents directly inside it.
pub struct CategoryNode {
    pub name: String,
    pub path: String,
    pub children: Vec<CategoryNode>,
    pub prompts: Vec<PromptData>,
}

impl CategoryNode {
    /// The mathematical value of this subtree.
    pub open spec fn rec(self) -> CatRec
        decreases self,
    {
        CatRec {
            name: self.name@,
            path: self.path@,
            children: cat_recs(self.children@),
            prompts: prompt_views(self.prompts@),
        }
    }
}

/// The mathematical values of a sequence of subtrees, in order.
pub open spec fn cat_recs(s: Seq<CategoryNode>) -> Seq<CatRec>
    decreases s,
{
    if s.len() == 0 {
        Seq::empty()
    } else {
        seq![s[0].rec()] + cat_recs(s.drop_first())
    }
}

/// The subtree sequence is as long as its source and agrees with it
/// pointwise.
pub proof fn lemma_cat_recs_props(s: Seq<CategoryNode>)
    ensures
        (#[trigger] cat_recs(s)).len() == s.len(),
        forall|i: int| 0 <= i < s.len() ==> #[trigger] cat_recs(s)[i] == s[i].rec(),
    decreases s.len(),
{
    if s.len() > 0 {
        lemma_cat_recs_props(s.drop_first());
        assert forall|i: int| 0 <= i < s.len() implies #[trigger] cat_recs(s)[i] == s[i].rec() by {
            if i == 0 {
                assert(cat_recs(s)[0] == s[0].rec());
            } else {
                assert(cat_recs(s)[i] == cat_recs(s.drop_first())[i - 1]);
                assert(s.drop_first()[i - 1] == s[i]);
            }
        }
    }
}

impl View for CategoryNode {
    type V = CatRec;

    open spec fn view(&self) -> CatRec {
        self.rec()
    }
}

/// Every document in the forest, in walk order: each category's own
/// documents, then its subtree's, then its right siblings'.
pub open spec fn spec_collect(cats: Seq<CatRec>) -> Seq<PromptRec>
    decreases cats,
{
    if cats.len() == 0 {
        Seq::empty()
    } else {
        cats[0].prompts + spec_collect(cats[0].children) + spec_collect(cats.drop_first())
    }
}

proof fn lemma_collect_concat(a: Seq<CatRec>, b: Seq<CatRec>)
    ensures
        spec_collect(a + b) == spec_collect(a) + spec_collect(b),
    decreases a.len(),
{
    if a.len() == 0 {
        assert(a + b =~= b);
        assert(spec_collect(a) + spec_collect(b) =~= spec_collect(b));
    } else {
        assert((a + b).drop_first() =~= a.drop_first() + b);
        assert((a + b)[0] == a[0]);
        assert((a + b).len() > 0);
        lemma_collect_concat(a.drop_first(), b);
        assert(spec_collect(a + b) =~= a[0].prompts + spec_collect(a[0].children) + spec_collect(
            a.drop_first(),
        ) + spec_collect(b));
        assert(spec_collect(a) + spec_collect(b) =~= a[0].prompts + spec_collect(a[0].children)
            + spec_collect(a.drop_first()) + spec_collect(b));
    }
}

/// Every document in the category forest, in walk order.
#[verifier::loop_isolation(false)]
pub fn collect_all_prompts(categories: &Vec<CategoryNode>) -> (r: Vec<PromptData>)
    ensures
        prompt_views(r@) == spec_collect(cat_recs(categories@)),
    decreases *categories,
{
    let n = categories.len();
    let mut out: Vec<PromptData> = Vec::new();
    proof {
        lemma_cat_recs_props(categories@);
        assert(cat_recs(categories@).subrange(0, 0) =~= Seq::<CatRec>::empty());
        assert(prompt_views(out@) =~= spec_collect(cat_recs(categories@).subrange(0, 0)));
    }
    let mut i: usize = 0;
    while i < n
        invariant
            i <= n,
            prompt_views(out@) == spec_collect(cat_recs(categories@).subrange(0, i as int)),
        decreases n - i,
    {
        let ghost recs = cat_recs(categories@);
        proof {
            assert(recs.subrange(0, i + 1) =~= recs.subrange(0, i as int) + seq![recs[i as int]]);
            lemma_collect_concat(recs.subrange(0, i as int), seq![recs[i as int]]);
            assert(seq![recs[i as int]].drop_first() =~= Seq::<CatRec>::empty());
            assert(spec_collect(Seq::<CatRec>::empty()) =~= Seq::<PromptRec>::empty());
            assert(spec_collect(seq![recs[i as int]]) =~= recs[i as int].prompts + spec_collect(
                recs[i as int].children,
            ));
        }
        let m = categories[i].prompts.len();
        let mut k: usize = 0;
        while k < m
            invariant
                k <= m,
                prompt_views(out@) == spec_collect(cat_recs(categories@).subrange(0, i as int))
                    + prompt_views(categories@[i as int].prompts@).subrange(0, k as int),
            decreases m - k,
        {
            let c = prompt_clone(&categories[i].prompts[k]);
            let ghost pre = out@;
            out.push(c);
            k = k + 1;
            proof {
                lemma_prompt_views_push(pre, c);
                assert(prompt_views(categories@[i as int].prompts@).subrange(0, k as int)
                    =~= prompt_views(categories@[i as int].prompts@).subrange(0, k - 1).push(
                    categories@[i as int].prompts@[k - 1]@,
                ));
                assert(prompt_views(out@) =~= spec_collect(
                    cat_recs(categories@).subrange(0, i as int),
                ) + prompt_views(categories@[i as int].prompts@).subrange(0, k as int));
            }
        }
        proof {
            assert(prompt_views(categories@[i as int].prompts@).subrange(
                0,
                categories@[i as int].prompts@.len() as int,
            ) =~= prompt_views(categories@[i as int].prompts@));
        }
        let sub = collect_all_prompts(&categories[i].children);
        let sm = sub.len();
        let mut k2: usize = 0;
        while k2 < sm
            invariant
                k2 <= sm,
                prompt_views(sub@) == spec_collect(cat_recs(categories@[i as int].children@)),
                sm == sub@.len(),
                prompt_views(out@) == spec_collect(cat_recs(categories@).subrange(0, i as int))
                    + prompt_views(categories@[i as int].prompts@) + prompt_views(
                    sub@,
                ).subrange(0, k2 as int),
            decreases sm - k2,
        {
            let c = prompt_clone(&sub[k2]);
            let ghost pre = out@;
            out.push(c);
            k2 = k2 + 1;
            proof {
                lemma_prompt_views_push(pre, c);
                assert(prompt_views(sub@).subrange(0, k2 as int) =~= prompt_views(
                    sub@,
                ).subrange(0, k2 - 1).push(sub@[k2 - 1]@));
                assert(prompt_views(out@) =~= spec_collect(
                    cat_recs(categories@).subrange(0, i as int),
                ) + prompt_views(categories@[i as int].prompts@) + prompt_views(sub@).subrange(
                    0,
                    k2 as int,
                ));
            }
        }
        proof {
            assert(prompt_views(sub@).subrange(0, sub@.len() as int) =~= prompt_views(sub@));
            assert(categories@[i as int].rec().prompts == prompt_views(
                categories@[i as int].prompts@,
            ));
            assert(categories@[i as int].rec().children == cat_recs(
                categories@[i as int].children@,
            ));
            assert(prompt_views(out@) =~= spec_collect(
                cat_recs(categories@).subrange(0, i + 1),
            ));
        }
        i = i + 1;
    }
    proof {
        assert(cat_recs(categories@).subrange(0, cat_recs(categories@).len() as int) =~= cat_recs(
            categories@,
        ));
    }
    out
}

/// The scanned vault: its root, the category forest, and the flat
/// index of every document keyed by id.
pub struct FileSystemState {
    pub root: String,
    pub categories: Vec<CategoryNode>,
    pub all_prompts: Vec<PromptData>,
}

/// Assembles the scanned vault: the flat index covers the forest's
/// documents, then the documents directly under the root, then the
/// trashed ones, keyed by id with a later occurrence winning.
pub fn build_file_system_state(
    root: String,
    categories: Vec<CategoryNode>,
    root_prompts: Vec<PromptData>,
    trash_prompts: Vec<PromptData>,
) -> (r: FileSystemState)
    ensures
        r.root@ == root@,
        cat_recs(r.categories@) == cat_recs(categories@),
        spec_index_unique(prompt_views(r.all_prompts@)),
        forall|id: Seq<char>|
            #[trigger] spec_index_get(prompt_views(r.all_prompts@), id) == spec_last_with_id(
                spec_collect(cat_recs(categories@)) + prompt_views(root_prompts@) + prompt_views(
                    trash_prompts@,
                ),
                id,
            ),
{
    let mut all = collect_all_prompts(&categories);
    let mut i: usize = 0;
    let ghost base = prompt_views(all@);
    while i < root_prompts.len()
        invariant
            i <= root_prompts@.len(),
            prompt_views(all@) == base + prompt_views(root_prompts@).subrange(0, i as int),
        decreases root_prompts@.len() - i,
    {
        let c = prompt_clone(&root_prompts[i]);
        let ghost pre = all@;
        all.push(c);
        i = i + 1;
        proof {
            lemma_prompt_views_push(pre, c);
            assert(prompt_views(root_prompts@).subrange(0, i as int) =~= prompt_views(
                root_prompts@,
            ).subrange(0, i - 1).push(root_prompts@[i - 1]@));
            assert(prompt_views(all@) =~= base + prompt_views(root_prompts@).subrange(
                0,
                i as int,
            ));
        }
    }
    proof {
        assert(prompt_views(root_prompts@).subrange(0, root_prompts@.len() as int)
            =~= prompt_views(root_prompts@));
    }
    let ghost base2 = prompt_views(all@);
    let mut k: usize = 0;
    while k < trash_prompts.len()
        invariant
            k <= trash_prompts@.len(),
            prompt_views(all@) == base2 + prompt_views(trash_prompts@).subrange(0, k as int),
        decreases trash_prompts@.len() - k,
    {
        let c = prompt_clone(&trash_prompts[k]);
        let ghost pre = all@;
        all.push(c);
        k = k + 1;
        proof {
            lemma_prompt_views_push(pre, c);
            assert(prompt_views(trash_prompts@).subrange(0, k as int) =~= prompt_views(
                trash_prompts@,
            ).subrange(0, k - 1).push(trash_prompts@[k - 1]@));
            assert(prompt_views(all@) =~= base2 + prompt_views(trash_prompts@).subrange(
                0,
                k as int,
            ));
        }
    }
    proof {
        assert(prompt_views(trash_prompts@).subrange(0, trash_prompts@.len() as int)
            =~= prompt_views(trash_prompts@));
        assert(prompt_views(all@) =~= spec_collect(cat_recs(categories@)) + prompt_views(
            root_prompts@,
        ) + prompt_views(trash_prompts@));
    }
    let index = build_flat_index(&all);
    FileSystemState { root, categories, all_prompts: index }
}

/// A document as read from its directory: the missing body reads as
/// empty at the host; when the directory's category is known and the
/// metadata lacks the category fields, they are filled in for the
/// reader, without being persisted.
pub fn read_prompt_data(
    meta: JsonObj,
    content: String,
    path: String,
    category_path: Option<&String>,
) -> (r: PromptData)
    ensures
        r.path@ == path@,
        r.content@ == content@,
        match category_path {
            Some(cat) => {
                &&& jlookup(r.meta@, "category_path"@) == (if jlookup(
                    meta@,
                    "category_path"@,
                ) is Some {
                    jlookup(meta@, "category_path"@)
                } else {
                    Some(JVal::Str(cat@))
                })
                &&& (forall|k: Seq<char>|
                    k != "category_path"@ && k != "category"@ ==> #[trigger] jlookup(r.meta@, k)
                        == jlookup(meta@, k))
            },
            None => r.meta@ == meta@,
        },
{
    let mut m = meta;
    match category_path {
        Some(cat) => {
            crate::meta::enrich_category(&mut m, cat.as_str());
        },
        None => {},
    }
    PromptData { meta: m, content, path }
}

} // verus!
