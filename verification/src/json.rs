//! The document metadata model: a JSON-like value tree held as plain
//! data, with an object type whose operations preserve unknown keys
//! verbatim. The host converts between this model and the bytes on disk.

use vstd::prelude::*;
use crate::strutil::streq;

verus! {

broadcast use vstd::std_specs::vec::group_vec_axioms;

/// The mathematical shape of a metadata value.
pub enum JVal {
    Null,
    Bool(bool),
    Int(int),
    Num(Seq<char>),
    Str(Seq<char>),
    Arr(Seq<JVal>),
    Obj(Seq<(Seq<char>, JVal)>),
}

/// A JSON-like value. Integral numbers that fit `i64` are held as `Int`;
/// any other numeric literal is carried verbatim as its text, so nothing
/// is lost between read and write.
pub enum JsonVal {
    Null,
    Bool(bool),
    Int(i64),
    Num(String),
    Str(String),
    Arr(Vec<JsonVal>),
    Obj(JsonObj),
}

/// A JSON object: a sequence of key-value entries. Lookups take the
/// first entry with a matching key.
pub struct JsonObj {
    pub entries: Vec<(String, JsonVal)>,
}

impl JsonVal {
    /// The mathematical value of this node.
    pub open spec fn jv(self) -> JVal
        decreases self,
    {
        match self {
            JsonVal::Null => JVal::Null,
            JsonVal::Bool(b) => JVal::Bool(b),
            JsonVal::Int(n) => JVal::Int(n as int),
            JsonVal::Num(s) => JVal::Num(s@),
            JsonVal::Str(s) => JVal::Str(s@),
            JsonVal::Arr(items) => JVal::Arr(jv_seq(items@)),
            JsonVal::Obj(o) => JVal::Obj(jv_entries(o.entries@)),
        }
    }
}

/// The mathematical values of a sequence of nodes, in order.
pub open spec fn jv_seq(s: Seq<JsonVal>) -> Seq<JVal>
    decreases s,
{
    if s.len() == 0 {
        Seq::empty()
    } else {
        seq![s[0].jv()] + jv_seq(s.drop_first())
    }
}

/// The mathematical values of a sequence of entries, in order.
pub open spec fn jv_entries(s: Seq<(String, JsonVal)>) -> Seq<(Seq<char>, JVal)>
    decreases s,
{
    if s.len() == 0 {
        Seq::empty()
    } else {
        seq![(s[0].0@, s[0].1.jv())] + jv_entries(s.drop_first())
    }
}

/// The value sequence is as long as its source and agrees with it
/// pointwise.
pub broadcast proof fn lemma_jv_seq_props(s: Seq<JsonVal>)
    ensures
        (#[trigger] jv_seq(s)).len() == s.len(),
        forall|i: int| 0 <= i < s.len() ==> #[trigger] jv_seq(s)[i] == s[i].jv(),
    decreases s.len(),
{
    if s.len() > 0 {
        lemma_jv_seq_props(s.drop_first());
        assert forall|i: int| 0 <= i < s.len() implies #[trigger] jv_seq(s)[i] == s[i].jv() by {
            if i == 0 {
                assert(jv_seq(s)[0] == s[0].jv());
            } else {
                assert(jv_seq(s)[i] == jv_seq(s.drop_first())[i - 1]);
                assert(s.drop_first()[i - 1] == s[i]);
            }
        }
    }
}

/// The entry sequence is as long as its source and agrees with it
/// pointwise.
pub broadcast proof fn lemma_jv_entries_props(s: Seq<(String, JsonVal)>)
    ensures
        (#[trigger] jv_entries(s)).len() == s.len(),
        forall|i: int|
            0 <= i < s.len() ==> #[trigger] jv_entries(s)[i] == (s[i].0@, s[i].1.jv()),
    decreases s.len(),
{
    if s.len() > 0 {
        lemma_jv_entries_props(s.drop_first());
        assert forall|i: int| 0 <= i < s.len() implies #[trigger] jv_entries(s)[i] == (s[i].0@,
        s[i].1.jv()) by {
            if i == 0 {
                assert(jv_entries(s)[0] == (s[0].0@, s[0].1.jv()));
            } else {
                assert(jv_entries(s)[i] == jv_entries(s.drop_first())[i - 1]);
                assert(s.drop_first()[i - 1] == s[i]);
            }
        }
    }
}

impl View for JsonVal {
    type V = JVal;

    open spec fn view(&self) -> JVal {
        self.jv()
    }
}

impl View for JsonObj {
    type V = Seq<(Seq<char>, JVal)>;

    open spec fn view(&self) -> Seq<(Seq<char>, JVal)> {
        jv_entries(self.entries@)
    }
}

/// The value under the first entry with the given key, if any.
pub open spec fn jlookup(s: Seq<(Seq<char>, JVal)>, k: Seq<char>) -> Option<JVal>
    decreases s.len(),
{
    if s.len() == 0 {
        None
    } else if s[0].0 == k {
        Some(s[0].1)
    } else {
        jlookup(s.drop_first(), k)
    }
}

proof fn lemma_jlookup_skip(s: Seq<(Seq<char>, JVal)>, k: Seq<char>, i: int)
    requires
        0 <= i < s.len(),
        s.skip(i)[0].0 != k,
    ensures
        jlookup(s.skip(i), k) == jlookup(s.skip(i + 1), k),
{
    assert(s.skip(i).drop_first() =~= s.skip(i + 1));
}

proof fn lemma_jlookup_update(
    s: Seq<(Seq<char>, JVal)>,
    i: int,
    kv: (Seq<char>, JVal),
    k2: Seq<char>,
)
    requires
        0 <= i < s.len(),
        s[i].0 == kv.0,
        forall|j: int| 0 <= j < i ==> (#[trigger] s[j]).0 != kv.0,
    ensures
        jlookup(s.update(i, kv), kv.0) == Some(kv.1),
        k2 != kv.0 ==> jlookup(s.update(i, kv), k2) == jlookup(s, k2),
    decreases i,
{
    let t = s.update(i, kv);
    if i == 0 {
        assert(t[0] == kv);
        if k2 != kv.0 {
            assert(t.drop_first() =~= s.drop_first());
        }
    } else {
        assert(t.drop_first() =~= s.drop_first().update(i - 1, kv));
        lemma_jlookup_update(s.drop_first(), i - 1, kv, k2);
        assert(t[0] == s[0]);
    }
}

proof fn lemma_jlookup_push(s: Seq<(Seq<char>, JVal)>, kv: (Seq<char>, JVal), k2: Seq<char>)
    requires
        forall|j: int| 0 <= j < s.len() ==> (#[trigger] s[j]).0 != kv.0,
    ensures
        jlookup(s.push(kv), kv.0) == Some(kv.1),
        k2 != kv.0 ==> jlookup(s.push(kv), k2) == jlookup(s, k2),
    decreases s.len(),
{
    if s.len() == 0 {
        assert(s.push(kv)[0] == kv);
        assert(s.push(kv).drop_first() =~= s);
    } else {
        assert(s.push(kv).drop_first() =~= s.drop_first().push(kv));
        lemma_jlookup_push(s.drop_first(), kv, k2);
        assert(s.push(kv)[0] == s[0]);
    }
}

/// Every entry whose key equals `k` removed.
pub open spec fn jremove(s: Seq<(Seq<char>, JVal)>, k: Seq<char>) -> Seq<(Seq<char>, JVal)>
    decreases s.len(),
{
    if s.len() == 0 {
        Seq::empty()
    } else {
        let rest = jremove(s.drop_first(), k);
        if s[0].0 == k {
            rest
        } else {
            seq![s[0]] + rest
        }
    }
}

proof fn lemma_jremove_concat(a: Seq<(Seq<char>, JVal)>, b: Seq<(Seq<char>, JVal)>, k: Seq<char>)
    ensures
        jremove(a + b, k) == jremove(a, k) + jremove(b, k),
    decreases a.len(),
{
    if a.len() == 0 {
        assert(a + b =~= b);
        assert(jremove(a, k) + jremove(b, k) =~= jremove(b, k));
    } else {
        assert((a + b).drop_first() =~= a.drop_first() + b);
        assert((a + b)[0] == a[0]);
        assert((a + b).len() > 0);
        lemma_jremove_concat(a.drop_first(), b, k);
        if a[0].0 == k {
        } else {
            assert(jremove(a + b, k) =~= seq![a[0]] + jremove(a.drop_first(), k) + jremove(b, k));
            assert(jremove(a, k) + jremove(b, k) =~= seq![a[0]] + jremove(a.drop_first(), k)
                + jremove(b, k));
        }
    }
}

proof fn lemma_jremove_lookup(s: Seq<(Seq<char>, JVal)>, k: Seq<char>, k2: Seq<char>)
    ensures
        jlookup(jremove(s, k), k) is None,
        k2 != k ==> jlookup(jremove(s, k), k2) == jlookup(s, k2),
    decreases s.len(),
{
    if s.len() > 0 {
        lemma_jremove_lookup(s.drop_first(), k, k2);
        let rest = jremove(s.drop_first(), k);
        if s[0].0 == k {
        } else {
            assert(jremove(s, k) == seq![s[0]] + rest);
            assert((seq![s[0]] + rest)[0] == s[0]);
            assert((seq![s[0]] + rest).drop_first() =~= rest);
        }
    }
}

impl JsonObj {
    /// An empty object.
    pub fn new() -> (r: JsonObj)
        ensures
            r@ == Seq::<(Seq<char>, JVal)>::empty(),
    {
        let r = JsonObj { entries: Vec::new() };
        proof {
            assert(r@ =~= Seq::<(Seq<char>, JVal)>::empty());
        }
        r
    }

    /// The value under the given key, if the key is present.
    pub fn get(&self, k: &str) -> (r: Option<&JsonVal>)
        ensures
            match r {
                Some(v) => jlookup(self@, k@) == Some(v@),
                None => jlookup(self@, k@) is None,
            },
    {
        let n = self.entries.len();
        proof {
            lemma_jv_entries_props(self.entries@);
            assert(self@.skip(0) =~= self@);
        }
        let mut i: usize = 0;
        while i < n
            invariant
                i <= n,
                n == self.entries@.len(),
                self@.len() == n,
                jlookup(self@, k@) == jlookup(self@.skip(i as int), k@),
            decreases n - i,
        {
            proof {
                lemma_jv_entries_props(self.entries@);
                assert(self@.skip(i as int)[0] == self@[i as int]);
            }
            if streq(self.entries[i].0.as_str(), k) {
                proof {
                    assert(self@.skip(i as int)[0].1 == self@[i as int].1);
                }
                return Some(&self.entries[i].1);
            }
            proof {
                lemma_jlookup_skip(self@, k@, i as int);
            }
            i = i + 1;
        }
        proof {
            assert(self@.skip(n as int) =~= Seq::<(Seq<char>, JVal)>::empty());
        }
        None
    }

    /// Whether the key is present.
    pub fn has(&self, k: &str) -> (r: bool)
        ensures
            r == (jlookup(self@, k@) is Some),
    {
        match self.get(k) {
            Some(_) => true,
            None => false,
        }
    }

    /// Sets the key to the value: the first entry with that key is
    /// replaced, or a new entry is appended. Every other key keeps its
    /// value.
    pub fn set(&mut self, k: &str, v: JsonVal)
        ensures
            jlookup(final(self)@, k@) == Some(v@),
            forall|k2: Seq<char>|
                k2 != k@ ==> #[trigger] jlookup(final(self)@, k2) == jlookup(old(self)@, k2),
    {
        let ghost old_view = self@;
        let n = self.entries.len();
        proof {
            lemma_jv_entries_props(self.entries@);
        }
        let mut i: usize = 0;
        while i < n
            invariant
                i <= n,
                n == self.entries@.len(),
                self@ == old_view,
                old_view == old(self)@,
                self@.len() == n,
                forall|j: int| 0 <= j < i ==> (#[trigger] self@[j]).0 != k@,
            decreases n - i,
        {
            proof {
                lemma_jv_entries_props(self.entries@);
            }
            if streq(self.entries[i].0.as_str(), k) {
                let key = k.to_owned();
                self.entries.set(i, (key, v));
                proof {
                    lemma_jv_entries_props(self.entries@);
                    assert(self@ =~= old_view.update(i as int, (k@, v@)));
                    lemma_jlookup_update(old_view, i as int, (k@, v@), k@);
                    assert forall|k2: Seq<char>| k2 != k@ implies jlookup(self@, k2) == jlookup(
                        old_view,
                        k2,
                    ) by {
                        lemma_jlookup_update(old_view, i as int, (k@, v@), k2);
                    }
                }
                return ;
            }
            i = i + 1;
        }
        let key = k.to_owned();
        let ghost pre = self.entries@;
        self.entries.push((key, v));
        proof {
            lemma_jv_entries_props(pre);
            lemma_jv_entries_props(self.entries@);
            assert(self@ =~= old_view.push((k@, v@)));
            lemma_jlookup_push(old_view, (k@, v@), k@);
            assert forall|k2: Seq<char>| k2 != k@ implies jlookup(self@, k2) == jlookup(
                old_view,
                k2,
            ) by {
                lemma_jlookup_push(old_view, (k@, v@), k2);
            }
        }
    }

    /// Removes every entry under the given key; every other key keeps
    /// its value.
    pub fn remove_key(&mut self, k: &str)
        ensures
            jlookup(final(self)@, k@) is None,
            forall|k2: Seq<char>|
                k2 != k@ ==> #[trigger] jlookup(final(self)@, k2) == jlookup(old(self)@, k2),
    {
        let ghost old_view = self@;
        let n = self.entries.len();
        proof {
            lemma_jv_entries_props(self.entries@);
        }
        let mut out: Vec<(String, JsonVal)> = Vec::new();
        proof {
            assert(old_view.subrange(0, 0) =~= Seq::<(Seq<char>, JVal)>::empty());
            assert((JsonObj { entries: out })@ =~= jremove(old_view.subrange(0, 0), k@));
        }
        let mut i: usize = 0;
        while i < n
            invariant
                i <= n,
                n == self.entries@.len(),
                self@ == old_view,
                self@.len() == n,
                (JsonObj { entries: out })@ == jremove(old_view.subrange(0, i as int), k@),
            decreases n - i,
        {
            proof {
                assert(old_view.subrange(0, i + 1) =~= old_view.subrange(0, i as int)
                    + seq![old_view[i as int]]);
                lemma_jremove_concat(old_view.subrange(0, i as int), seq![old_view[i as int]], k@);
                assert(seq![old_view[i as int]].drop_first()
                    =~= Seq::<(Seq<char>, JVal)>::empty());
                assert(jremove(Seq::<(Seq<char>, JVal)>::empty(), k@)
                    =~= Seq::<(Seq<char>, JVal)>::empty());
            }
            proof {
                lemma_jv_entries_props(self.entries@);
                lemma_jv_entries_props(out@);
            }
            let kept = !streq(self.entries[i].0.as_str(), k);
            if kept {
                let key = self.entries[i].0.clone();
                let val = json_clone(&self.entries[i].1);
                out.push((key, val));
                proof {
                    lemma_jv_entries_props(out@);
                    assert(jremove(seq![old_view[i as int]], k@) =~= seq![old_view[i as int]]);
                    assert((JsonObj { entries: out })@ =~= jremove(
                        old_view.subrange(0, i as int),
                        k@,
                    ) + seq![old_view[i as int]]);
                }
            } else {
                proof {
                    assert(jremove(seq![old_view[i as int]], k@)
                        =~= Seq::<(Seq<char>, JVal)>::empty());
                    assert((JsonObj { entries: out })@ =~= jremove(
                        old_view.subrange(0, i as int),
                        k@,
                    ));
                }
            }
            i = i + 1;
        }
        self.entries = out;
        proof {
            lemma_jv_entries_props(self.entries@);
            assert(old_view.subrange(0, n as int) =~= old_view);
            lemma_jremove_lookup(old_view, k@, k@);
            assert forall|k2: Seq<char>| k2 != k@ implies jlookup(self@, k2) == jlookup(
                old_view,
                k2,
            ) by {
                lemma_jremove_lookup(old_view, k@, k2);
            }
        }
    }

    /// The string under the key, if the key holds a string.
    pub fn get_str(&self, k: &str) -> (r: Option<&String>)
        ensures
            match r {
                Some(s) => jlookup(self@, k@) == Some(JVal::Str(s@)),
                None => !(jlookup(self@, k@) matches Some(JVal::Str(_))),
            },
    {
        match self.get(k) {
            Some(JsonVal::Str(s)) => Some(s),
            _ => None,
        }
    }

    /// The integer under the key, if the key holds an integer.
    pub fn get_i64(&self, k: &str) -> (r: Option<i64>)
        ensures
            match r {
                Some(n) => jlookup(self@, k@) == Some(JVal::Int(n as int)),
                None => !(jlookup(self@, k@) matches Some(JVal::Int(_))),
            },
    {
        match self.get(k) {
            Some(JsonVal::Int(n)) => Some(*n),
            _ => None,
        }
    }

    /// The boolean under the key, if the key holds a boolean.
    pub fn get_bool(&self, k: &str) -> (r: Option<bool>)
        ensures
            match r {
                Some(b) => jlookup(self@, k@) == Some(JVal::Bool(b)),
                None => !(jlookup(self@, k@) matches Some(JVal::Bool(_))),
            },
    {
        match self.get(k) {
            Some(JsonVal::Bool(b)) => Some(*b),
            _ => None,
        }
    }

    /// The object under the key, if the key holds an object.
    pub fn get_obj(&self, k: &str) -> (r: Option<&JsonObj>)
        ensures
            match r {
                Some(o) => jlookup(self@, k@) == Some(JVal::Obj(o@)),
                None => !(jlookup(self@, k@) matches Some(JVal::Obj(_))),
            },
    {
        match self.get(k) {
            Some(JsonVal::Obj(o)) => Some(o),
            _ => None,
        }
    }
}

/// A value equal, at the level of the model, to the given one.
#[verifier::loop_isolation(false)]
pub fn json_clone(v: &JsonVal) -> (r: JsonVal)
    ensures
        r@ == v@,
    decreases *v,
{
    match v {
        JsonVal::Null => JsonVal::Null,
        JsonVal::Bool(b) => JsonVal::Bool(*b),
        JsonVal::Int(n) => JsonVal::Int(*n),
        JsonVal::Num(s) => JsonVal::Num(s.clone()),
        JsonVal::Str(s) => JsonVal::Str(s.clone()),
        JsonVal::Arr(items) => {
            let n = items.len();
            let mut out: Vec<JsonVal> = Vec::new();
            let mut i: usize = 0;
            while i < n
                invariant
                    i <= n,
                    n == items@.len(),
                    *v == JsonVal::Arr(*items),
                    out@.len() == i,
                    forall|j: int| 0 <= j < i ==> (#[trigger] out@[j])@ == items@[j]@,
                decreases n - i,
            {
                let c = json_clone(&items[i]);
                out.push(c);
                i = i + 1;
            }
            let r = JsonVal::Arr(out);
            proof {
                lemma_jv_seq_props(out@);
                lemma_jv_seq_props(items@);
                assert(jv_seq(out@) =~= jv_seq(items@));
            }
            r
        },
        JsonVal::Obj(o) => JsonVal::Obj(obj_clone(o)),
    }
}

/// An object equal, at the level of the model, to the given one.
pub fn obj_clone(o: &JsonObj) -> (r: JsonObj)
    ensures
        r@ == o@,
    decreases *o,
{
    let n = o.entries.len();
    let mut out: Vec<(String, JsonVal)> = Vec::new();
    let mut i: usize = 0;
    while i < n
        invariant
            i <= n,
            n == o.entries@.len(),
            out@.len() == i,
            forall|j: int|
                0 <= j < i ==> (#[trigger] out@[j]).0@ == o.entries@[j].0@ && out@[j].1@
                    == o.entries@[j].1@,
        decreases n - i,
    {
        let key = o.entries[i].0.clone();
        let val = json_clone(&o.entries[i].1);
        out.push((key, val));
        i = i + 1;
    }
    let r = JsonObj { entries: out };
    proof {
        lemma_jv_entries_props(out@);
        lemma_jv_entries_props(o.entries@);
        assert(r@ =~= o@);
    }
    r
}

} // verus!
