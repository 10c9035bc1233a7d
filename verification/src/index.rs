//! The inverted index: a mapping from tokens to the document identities
//! whose path yields that token. This is the committed, immediately
//! queryable form of the index; buffering and commits live one layer up,
//! in the engine.

use vstd::prelude::*;
use crate::text::contains_substr;
use crate::text::contains_substring;
use crate::tokens::path_tokens;
use crate::tokens::tokenize;

verus! {

/// The error type of index operations. The in-memory realization has no
/// storage to fail against, so its operations always succeed; the type
/// keeps the fallible shape that a storage-backed realization needs.
#[derive(Debug)]
pub struct IndexError;

/// The mathematical content of an [`IndexItem`]: the token sequence and
/// the document identity.
pub struct ItemView {
    pub keys: Seq<Seq<char>>,
    pub value: Seq<char>,
}

/// The item an [`IndexItem`] built from path `p` denotes.
pub open spec fn item_of_path(p: Seq<char>) -> ItemView {
    ItemView { keys: path_tokens(p), value: p }
}

/// A document prepared for indexing: the identity (`value`, a canonical
/// path) together with the lookup keys derived from it.
#[derive(Debug)]
pub struct IndexItem {
    keys: Vec<String>,
    value: String,
}

impl View for IndexItem {
    type V = ItemView;

    closed spec fn view(&self) -> ItemView {
        ItemView { keys: self.keys.deep_view(), value: self.value@ }
    }
}

impl IndexItem {
    /// Builds the document for canonical path `p`: its keys are the
    /// tokens of `p` and its identity is `p` itself.
    pub fn from_path(p: &str) -> (item: IndexItem)
        ensures
            item@ == item_of_path(p@),
    {
        IndexItem { keys: tokenize(p), value: p.to_owned() }
    }

    /// The document identity.
    pub fn value(&self) -> (r: &String)
        ensures
            r@ == self@.value,
    {
        &self.value
    }

    /// The lookup keys.
    pub fn keys(&self) -> (r: &Vec<String>)
        ensures
            r.deep_view() == self@.keys,
    {
        &self.keys
    }
}

/// One token together with every document identity it maps to.
struct Posting {
    key: String,
    vals: Vec<String>,
}

/// Token `k` maps to identity `v` somewhere in `data`.
spec fn data_maps_to(data: Seq<Posting>, k: Seq<char>, v: Seq<char>) -> bool {
    exists|i: int|
        0 <= i < data.len() && data[i].key@ == k && data[i].vals.deep_view().contains(v)
}

/// No two elements of `s` are equal.
pub open spec fn distinct_seq(s: Seq<Seq<char>>) -> bool {
    forall|i: int, j: int| 0 <= i < j < s.len() ==> s[i] != s[j]
}

/// Each token has one posting, and no posting lists an identity twice.
spec fn data_wf(data: Seq<Posting>) -> bool {
    &&& forall|i: int, j: int|
        0 <= i < j < data.len() ==> data[i].key@ != data[j].key@
    &&& forall|i: int| 0 <= i < data.len() ==> distinct_seq(#[trigger] data[i].vals.deep_view())
}

/// The inverted index over tokens.
pub struct Index {
    data: Vec<Posting>,
}

impl Index {
    /// Token `k` maps to document identity `v`.
    pub closed spec fn maps_to(self, k: Seq<char>, v: Seq<char>) -> bool {
        data_maps_to(self.data@, k, v)
    }

    /// Identity `v` matches free-text query `q`: some token that maps to
    /// `v` contains `q` as a substring.
    pub open spec fn matches(self, q: Seq<char>, v: Seq<char>) -> bool {
        exists|k: Seq<char>| self.maps_to(k, v) && contains_substring(k, q)
    }

    #[verifier::type_invariant]
    spec fn wf(self) -> bool {
        data_wf(self.data@)
    }

    /// An empty index: no token maps to any identity.
    pub fn new() -> (idx: Index)
        ensures
            forall|k: Seq<char>, v: Seq<char>| !idx.maps_to(k, v),
    {
        Index { data: Vec::new() }
    }

    /// Adds `entry` to the index: afterwards each of its keys maps to its
    /// identity, and nothing else changes. Re-inserting an already present
    /// entry leaves the index as it was.
    pub fn insert(&mut self, entry: IndexItem) -> (r: Result<(), IndexError>)
        ensures
            r is Ok,
            forall|k: Seq<char>, v: Seq<char>|
                final(self).maps_to(k, v) <==> (old(self).maps_to(k, v) || (
                entry@.keys.contains(k) && v == entry@.value)),
    {
        proof {
            use_type_invariant(&*self);
        }
        let mut data: Vec<Posting> = Vec::new();
        core::mem::swap(&mut data, &mut self.data);
        insert_all_keys(&mut data, &entry.keys, &entry.value);
        self.data = data;
        Ok(())
    }

    /// Removes `entry` from the index: afterwards none of its keys maps
    /// to its identity, and nothing else changes. Removing an absent
    /// entry is a no-op, not an error.
    pub fn remove(&mut self, entry: IndexItem) -> (r: Result<(), IndexError>)
        ensures
            r is Ok,
            forall|k: Seq<char>, v: Seq<char>|
                final(self).maps_to(k, v) <==> (old(self).maps_to(k, v) && !(
                entry@.keys.contains(k) && v == entry@.value)),
    {
        proof {
            use_type_invariant(&*self);
        }
        let mut data: Vec<Posting> = Vec::new();
        core::mem::swap(&mut data, &mut self.data);
        remove_all_keys(&mut data, &entry.keys, &entry.value);
        self.data = data;
        Ok(())
    }

    /// Answers a free-text query: the deduplicated identities of every
    /// document one of whose tokens contains `q` as a substring. An
    /// unmatched or empty query is not an error; the empty query matches
    /// every document.
    pub fn query(&self, q: &str) -> (r: Result<Vec<String>, IndexError>)
        ensures
            r is Ok,
            distinct_seq(r->Ok_0.deep_view()),
            forall|v: Seq<char>| r->Ok_0.deep_view().contains(v) <==> self.matches(q@, v),
    {
        let mut out: Vec<String> = Vec::new();
        let n = self.data.len();
        let mut pi: usize = 0;
        while pi < n
            invariant
                n == self.data@.len(),
                pi <= n,
                distinct_seq(out.deep_view()),
                forall|v: Seq<char>|
                    out.deep_view().contains(v) <==> matches_upto(self.data@, q@, v, pi as int),
            decreases n - pi,
        {
            if contains_substr(self.data[pi].key.as_str(), q) {
                let nv = self.data[pi].vals.len();
                let mut vi: usize = 0;
                while vi < nv
                    invariant
                        n == self.data@.len(),
                        pi < n,
                        nv == self.data@[pi as int].vals@.len(),
                        vi <= nv,
                        contains_substring(self.data@[pi as int].key@, q@),
                        distinct_seq(out.deep_view()),
                        forall|v: Seq<char>|
                            out.deep_view().contains(v) <==> (matches_upto(
                                self.data@,
                                q@,
                                v,
                                pi as int,
                            ) || self.data@[pi as int].vals.deep_view().take(vi as int).contains(
                                v,
                            )),
                    decreases nv - vi,
                {
                    let val = &self.data[pi].vals[vi];
                    let ghost vseen = self.data@[pi as int].vals.deep_view().take(vi as int);
                    proof {
                        assert(self.data@[pi as int].vals.deep_view()[vi as int] == val@);
                        assert(self.data@[pi as int].vals.deep_view().take(vi + 1) =~= vseen.push(
                            val@,
                        ));
                        lemma_push_contains_all(vseen, val@);
                    }
                    if !contains_string(&out, val) {
                        let ghost before = out.deep_view();
                        out.push(val.clone());
                        proof {
                            assert(out.deep_view() =~= before.push(val@));
                            lemma_push_contains_all(before, val@);
                            assert forall|v: Seq<char>|
                                out.deep_view().contains(v) <==> (matches_upto(
                                self.data@,
                                q@,
                                v,
                                pi as int,
                            ) || vseen.push(val@).contains(v)) by {
                                assert(out.deep_view().contains(v) == before.push(val@).contains(
                                    v,
                                ));
                                assert(before.contains(v) <==> (matches_upto(
                                    self.data@,
                                    q@,
                                    v,
                                    pi as int,
                                ) || vseen.contains(v)));
                            }
                        }
                    } else {
                        proof {
                            assert forall|v: Seq<char>|
                                out.deep_view().contains(v) <==> (matches_upto(
                                self.data@,
                                q@,
                                v,
                                pi as int,
                            ) || vseen.push(val@).contains(v)) by {
                                assert(out.deep_view().contains(v) <==> (matches_upto(
                                    self.data@,
                                    q@,
                                    v,
                                    pi as int,
                                ) || vseen.contains(v)));
                                assert(out.deep_view().contains(val@));
                            }
                        }
                    }
                    vi += 1;
                }
                proof {
                    assert(self.data@[pi as int].vals.deep_view().take(nv as int)
                        =~= self.data@[pi as int].vals.deep_view());
                    lemma_matches_upto_step(self.data@, q@, pi as int);
                    assert forall|v: Seq<char>|
                        out.deep_view().contains(v) <==> matches_upto(
                        self.data@,
                        q@,
                        v,
                        pi + 1,
                    ) by {
                        assert(out.deep_view().contains(v) <==> (matches_upto(
                            self.data@,
                            q@,
                            v,
                            pi as int,
                        ) || self.data@[pi as int].vals.deep_view().take(nv as int).contains(v)));
                        assert(matches_upto(self.data@, q@, v, pi + 1) <==> (matches_upto(
                            self.data@,
                            q@,
                            v,
                            pi as int,
                        ) || (contains_substring(self.data@[pi as int].key@, q@) && self.data@[
                        pi as int].vals.deep_view().contains(v))));
                    }
                }
            } else {
                proof {
                    lemma_matches_upto_step(self.data@, q@, pi as int);
                    assert forall|v: Seq<char>|
                        out.deep_view().contains(v) <==> matches_upto(
                        self.data@,
                        q@,
                        v,
                        pi + 1,
                    ) by {
                        assert(out.deep_view().contains(v) <==> matches_upto(
                            self.data@,
                            q@,
                            v,
                            pi as int,
                        ));
                        assert(matches_upto(self.data@, q@, v, pi + 1) <==> (matches_upto(
                            self.data@,
                            q@,
                            v,
                            pi as int,
                        ) || (contains_substring(self.data@[pi as int].key@, q@) && self.data@[
                        pi as int].vals.deep_view().contains(v))));
                    }
                }
            }
            pi += 1;
        }
        proof {
            assert forall|v: Seq<char>| matches_upto(self.data@, q@, v, n as int) implies
                self.matches(q@, v) by {
                let i = choose|i: int|
                    0 <= i < n && contains_substring(self.data@[i].key@, q@)
                        && self.data@[i].vals.deep_view().contains(v);
                assert(data_maps_to(self.data@, self.data@[i].key@, v));
            }
            assert forall|v: Seq<char>| self.matches(q@, v) implies matches_upto(
                self.data@,
                q@,
                v,
                n as int,
            ) by {
                let k = choose|k: Seq<char>|
                    self.maps_to(k, v) && contains_substring(k, q@);
                let i = choose|i: int|
                    0 <= i < self.data@.len() && self.data@[i].key@ == k && self.data@[
                    i].vals.deep_view().contains(v);
            }
        }
        Ok(out)
    }
}

impl Index {
    /// An independent copy holding the same token-to-identity mapping,
    /// for a reader to keep while the original moves on.
    pub fn duplicate(&self) -> (r: Index)
        ensures
            forall|k: Seq<char>, v: Seq<char>| r.maps_to(k, v) <==> self.maps_to(k, v),
    {
        proof {
            use_type_invariant(&*self);
        }
        let n = self.data.len();
        let mut data: Vec<Posting> = Vec::new();
        let mut i: usize = 0;
        while i < n
            invariant
                n == self.data@.len(),
                i <= n,
                data@.len() == i,
                forall|j: int|
                    #![trigger data@[j]]
                    0 <= j < i ==> (data@[j].key@ == self.data@[j].key@ && data@[
                    j].vals.deep_view() == self.data@[j].vals.deep_view()),
            decreases n - i,
        {
            let posting = Posting {
                key: self.data[i].key.clone(),
                vals: clone_strings(&self.data[i].vals),
            };
            data.push(posting);
            i += 1;
        }
        proof {
            assert forall|a: int, b: int| 0 <= a < b < data@.len() implies data@[a].key@ != data@[
            b].key@ by {
                assert(data@[a].key@ == self.data@[a].key@);
                assert(data@[b].key@ == self.data@[b].key@);
            }
            assert forall|a: int| 0 <= a < data@.len() implies distinct_seq(
                #[trigger] data@[a].vals.deep_view(),
            ) by {
                assert(data@[a].vals.deep_view() == self.data@[a].vals.deep_view());
            }
            assert forall|k: Seq<char>, v: Seq<char>|
                data_maps_to(data@, k, v) <==> data_maps_to(self.data@, k, v) by {
                if data_maps_to(data@, k, v) {
                    let j = choose|j: int|
                        0 <= j < data@.len() && data@[j].key@ == k && data@[
                        j].vals.deep_view().contains(v);
                    assert(data@[j].key@ == self.data@[j].key@);
                    assert(data@[j].vals.deep_view() == self.data@[j].vals.deep_view());
                    assert(self.data@[j].key@ == k && self.data@[j].vals.deep_view().contains(v));
                }
                if data_maps_to(self.data@, k, v) {
                    let j = choose|j: int|
                        0 <= j < self.data@.len() && self.data@[j].key@ == k && self.data@[
                        j].vals.deep_view().contains(v);
                    assert(data@[j].key@ == self.data@[j].key@);
                    assert(data@[j].vals.deep_view() == self.data@[j].vals.deep_view());
                    assert(data@[j].key@ == k && data@[j].vals.deep_view().contains(v));
                }
            }
        }
        Index { data }
    }
}

/// A copy of `v`, element for element.
fn clone_strings(v: &Vec<String>) -> (r: Vec<String>)
    ensures
        r@ == v@,
{
    let n = v.len();
    let mut r: Vec<String> = Vec::new();
    let mut i: usize = 0;
    while i < n
        invariant
            n == v@.len(),
            i <= n,
            r@ =~= v@.take(i as int),
        decreases n - i,
    {
        r.push(v[i].clone());
        proof {
            assert(r@ =~= v@.take(i + 1));
        }
        i += 1;
    }
    proof {
        assert(v@.take(n as int) =~= v@);
    }
    r
}

/// Identity `v` matches `q` through one of the first `upto` postings.
spec fn matches_upto(data: Seq<Posting>, q: Seq<char>, v: Seq<char>, upto: int) -> bool {
    exists|i: int|
        0 <= i < upto <= data.len() && contains_substring(data[i].key@, q)
            && data[i].vals.deep_view().contains(v)
}

proof fn lemma_matches_upto_step(data: Seq<Posting>, q: Seq<char>, pi: int)
    requires
        0 <= pi < data.len(),
    ensures
        forall|v: Seq<char>|
            matches_upto(data, q, v, pi + 1) <==> (matches_upto(data, q, v, pi) || (
            contains_substring(data[pi].key@, q) && data[pi].vals.deep_view().contains(v))),
{
    assert forall|v: Seq<char>| matches_upto(data, q, v, pi + 1) implies (matches_upto(
        data,
        q,
        v,
        pi,
    ) || (contains_substring(data[pi].key@, q) && data[pi].vals.deep_view().contains(v))) by {
        let i = choose|i: int|
            0 <= i < pi + 1 <= data.len() && contains_substring(data[i].key@, q) && data[
            i].vals.deep_view().contains(v);
        if i < pi {
            assert(matches_upto(data, q, v, pi));
        }
    }
}

/// Membership of `x`'s view among the views of `v`'s elements.
fn contains_string(v: &Vec<String>, x: &String) -> (r: bool)
    ensures
        r == v.deep_view().contains(x@),
{
    let n = v.len();
    let mut i: usize = 0;
    while i < n
        invariant
            n == v@.len(),
            i <= n,
            forall|j: int| 0 <= j < i ==> v.deep_view()[j] != x@,
        decreases n - i,
    {
        if v[i] == *x {
            assert(v.deep_view()[i as int] == x@);
            return true;
        }
        i += 1;
    }
    false
}

/// The index of the posting for `key`, if there is one.
fn find_posting(data: &Vec<Posting>, key: &String) -> (r: Option<usize>)
    ensures
        match r {
            Some(i) => i < data@.len() && data@[i as int].key@ == key@,
            None => forall|i: int| 0 <= i < data@.len() ==> data@[i].key@ != key@,
        },
{
    let n = data.len();
    let mut i: usize = 0;
    while i < n
        invariant
            n == data@.len(),
            i <= n,
            forall|j: int| 0 <= j < i ==> data@[j].key@ != key@,
        decreases n - i,
    {
        if data[i].key == *key {
            return Some(i);
        }
        i += 1;
    }
    None
}

proof fn lemma_push_contains_all(s: Seq<Seq<char>>, x: Seq<char>)
    ensures
        forall|y: Seq<char>| s.push(x).contains(y) <==> (s.contains(y) || y == x),
{
    assert forall|y: Seq<char>| s.push(x).contains(y) implies (s.contains(y) || y == x) by {
        let i = choose|i: int| 0 <= i < s.push(x).len() && s.push(x)[i] == y;
        if i < s.len() {
            assert(s[i] == y);
        }
    }
    assert forall|y: Seq<char>| s.contains(y) || y == x implies s.push(x).contains(y) by {
        if s.contains(y) {
            let i = choose|i: int| 0 <= i < s.len() && s[i] == y;
            assert(s.push(x)[i] == y);
        } else {
            assert(s.push(x)[s.len() as int] == y);
        }
    }
}

/// Removing one element of a duplicate-free sequence removes exactly
/// that element's value.
proof fn lemma_distinct_remove(s: Seq<Seq<char>>, at: int)
    requires
        distinct_seq(s),
        0 <= at < s.len(),
    ensures
        distinct_seq(s.remove(at)),
        forall|y: Seq<char>| s.remove(at).contains(y) <==> (s.contains(y) && y != s[at]),
{
    let t = s.remove(at);
    assert forall|y: Seq<char>| t.contains(y) implies (s.contains(y) && y != s[at]) by {
        let i = choose|i: int| 0 <= i < t.len() && t[i] == y;
        if i < at {
            assert(s[i] == y);
        } else {
            assert(s[i + 1] == y);
        }
    }
    assert forall|y: Seq<char>| s.contains(y) && y != s[at] implies t.contains(y) by {
        let i = choose|i: int| 0 <= i < s.len() && s[i] == y;
        if i < at {
            assert(t[i] == y);
        } else {
            assert(t[i - 1] == y);
        }
    }
}

/// Makes every key of `keys` map to `value` in `data`, leaving every
/// other pair alone.
fn insert_all_keys(data: &mut Vec<Posting>, keys: &Vec<String>, value: &String)
    requires
        data_wf(old(data)@),
    ensures
        data_wf(final(data)@),
        forall|k: Seq<char>, v: Seq<char>|
            data_maps_to(final(data)@, k, v) <==> (data_maps_to(old(data)@, k, v) || (
            keys.deep_view().contains(k) && v == value@)),
{
    let ghost orig = data@;
    let nkeys = keys.len();
    let mut ki: usize = 0;
    while ki < nkeys
        invariant
            nkeys == keys@.len(),
            ki <= nkeys,
            data_wf(data@),
            forall|k: Seq<char>, v: Seq<char>|
                data_maps_to(data@, k, v) <==> (data_maps_to(orig, k, v) || (keys.deep_view().take(
                ki as int,
                ).contains(k) && v == value@)),
        decreases nkeys - ki,
    {
        insert_key(data, &keys[ki], value);
        proof {
            assert(keys.deep_view().take(ki + 1) =~= keys.deep_view().take(ki as int).push(
                keys.deep_view()[ki as int],
            ));
            lemma_push_contains_all(keys.deep_view().take(ki as int), keys@[ki as int]@);
        }
        ki += 1;
    }
    proof {
        assert(keys.deep_view().take(nkeys as int) =~= keys.deep_view());
        assert forall|k: Seq<char>, v: Seq<char>|
            data_maps_to(data@, k, v) <==> (data_maps_to(orig, k, v) || (keys.deep_view().contains(
        k) && v == value@)) by {
            assert(data_maps_to(data@, k, v) <==> (data_maps_to(orig, k, v) || (
            keys.deep_view().take(nkeys as int).contains(k) && v == value@)));
        }
    }
}

/// Stops every key of `keys` from mapping to `value` in `data`, leaving
/// every other pair alone.
fn remove_all_keys(data: &mut Vec<Posting>, keys: &Vec<String>, value: &String)
    requires
        data_wf(old(data)@),
    ensures
        data_wf(final(data)@),
        forall|k: Seq<char>, v: Seq<char>|
            data_maps_to(final(data)@, k, v) <==> (data_maps_to(old(data)@, k, v) && !(
            keys.deep_view().contains(k) && v == value@)),
{
    let ghost orig = data@;
    let nkeys = keys.len();
    let mut ki: usize = 0;
    while ki < nkeys
        invariant
            nkeys == keys@.len(),
            ki <= nkeys,
            data_wf(data@),
            forall|k: Seq<char>, v: Seq<char>|
                data_maps_to(data@, k, v) <==> (data_maps_to(orig, k, v) && !(keys.deep_view().take(
                ki as int,
                ).contains(k) && v == value@)),
        decreases nkeys - ki,
    {
        remove_key(data, &keys[ki], value);
        proof {
            assert(keys.deep_view().take(ki + 1) =~= keys.deep_view().take(ki as int).push(
                keys.deep_view()[ki as int],
            ));
            lemma_push_contains_all(keys.deep_view().take(ki as int), keys@[ki as int]@);
        }
        ki += 1;
    }
    proof {
        assert(keys.deep_view().take(nkeys as int) =~= keys.deep_view());
        assert forall|k: Seq<char>, v: Seq<char>|
            data_maps_to(data@, k, v) <==> (data_maps_to(orig, k, v) && !(keys.deep_view().contains(
        k) && v == value@)) by {
            assert(data_maps_to(data@, k, v) <==> (data_maps_to(orig, k, v) && !(
            keys.deep_view().take(nkeys as int).contains(k) && v == value@)));
        }
    }
}

/// Makes `key` map to `value` in `data`, leaving every other pair alone.
fn insert_key(data: &mut Vec<Posting>, key: &String, value: &String)
    requires
        data_wf(old(data)@),
    ensures
        data_wf(final(data)@),
        forall|k: Seq<char>, v: Seq<char>|
            data_maps_to(final(data)@, k, v) <==> (data_maps_to(old(data)@, k, v) || (k == key@
                && v == value@)),
{
    let ghost orig = data@;
    match find_posting(data, key) {
        Some(pi) => {
            if !contains_string(&data[pi].vals, value) {
                let ghost vals0 = data@[pi as int].vals.deep_view();
                data[pi].vals.push(value.clone());
                proof {
                    assert(data@[pi as int].vals.deep_view() =~= vals0.push(value@));
                    lemma_push_contains_all(vals0, value@);
                    assert forall|k: Seq<char>, v: Seq<char>|
                        data_maps_to(data@, k, v) implies (data_maps_to(orig, k, v) || (k == key@
                        && v == value@)) by {
                        let i = choose|i: int|
                            0 <= i < data@.len() && data@[i].key@ == k && data@[
                            i].vals.deep_view().contains(v);
                        if i != pi {
                            assert(orig[i].key@ == k && orig[i].vals.deep_view().contains(v));
                        }
                    }
                    assert forall|k: Seq<char>, v: Seq<char>|
                        data_maps_to(orig, k, v) || (k == key@ && v == value@) implies
                        data_maps_to(data@, k, v) by {
                        if data_maps_to(orig, k, v) {
                            let i = choose|i: int|
                                0 <= i < orig.len() && orig[i].key@ == k && orig[
                                i].vals.deep_view().contains(v);
                            assert(data@[i].key@ == k && data@[i].vals.deep_view().contains(v));
                        } else {
                            assert(data@[pi as int].key@ == k);
                            assert(data@[pi as int].vals.deep_view().contains(v));
                        }
                    }
                }
            } else {
                proof {
                    assert forall|k: Seq<char>, v: Seq<char>|
                        data_maps_to(data@, k, v) <==> (data_maps_to(orig, k, v) || (k == key@
                        && v == value@)) by {
                        if k == key@ && v == value@ {
                            assert(data@[pi as int].key@ == k && data@[
                            pi as int].vals.deep_view().contains(v));
                        }
                    }
                }
            }
        },
        None => {
            let mut vals: Vec<String> = Vec::new();
            vals.push(value.clone());
            let posting = Posting { key: key.clone(), vals };
            data.push(posting);
            proof {
                let last = orig.len() as int;
                assert(data@[last].key@ == key@);
                assert(data@[last].vals.deep_view() =~= seq![value@]);
                assert(data@[last].vals.deep_view()[0] == value@);
                assert(data@[last].vals.deep_view().contains(value@));
                assert forall|k: Seq<char>, v: Seq<char>|
                    data_maps_to(data@, k, v) implies (data_maps_to(orig, k, v) || (k == key@
                    && v == value@)) by {
                    let i = choose|i: int|
                        0 <= i < data@.len() && data@[i].key@ == k && data@[
                        i].vals.deep_view().contains(v);
                    if i < last {
                        assert(orig[i].key@ == k && orig[i].vals.deep_view().contains(v));
                    } else {
                        assert(data@[i].vals.deep_view() =~= seq![value@]);
                        assert(v == value@);
                    }
                }
                assert forall|k: Seq<char>, v: Seq<char>|
                    data_maps_to(orig, k, v) || (k == key@ && v == value@) implies data_maps_to(
                    data@,
                    k,
                    v,
                ) by {
                    if data_maps_to(orig, k, v) {
                        let i = choose|i: int|
                            0 <= i < orig.len() && orig[i].key@ == k && orig[
                            i].vals.deep_view().contains(v);
                        assert(data@[i].key@ == k && data@[i].vals.deep_view().contains(v));
                    }
                }
            }
        },
    }
}

/// Stops `key` from mapping to `value` in `data`, leaving every other
/// pair alone; a no-op when the pair is absent.
fn remove_key(data: &mut Vec<Posting>, key: &String, value: &String)
    requires
        data_wf(old(data)@),
    ensures
        data_wf(final(data)@),
        forall|k: Seq<char>, v: Seq<char>|
            data_maps_to(final(data)@, k, v) <==> (data_maps_to(old(data)@, k, v) && !(k == key@
                && v == value@)),
{
    let ghost orig = data@;
    match find_posting(data, key) {
        Some(pi) => {
            match find_val(&data[pi].vals, value) {
                Some(vi) => {
                    let ghost vals0 = data@[pi as int].vals.deep_view();
                    data[pi].vals.remove(vi);
                    proof {
                        assert(data@[pi as int].vals.deep_view() =~= vals0.remove(vi as int));
                        lemma_distinct_remove(vals0, vi as int);
                    }
                    let ghost mid = data@;
                    if data[pi].vals.len() == 0 {
                        proof {
                            assert(vals0.remove(vi as int).len() == 0);
                            assert forall|y: Seq<char>| vals0.contains(y) implies y == value@ by {
                                if y != value@ {
                                    assert(vals0.remove(vi as int).contains(y));
                                }
                            }
                        }
                        data.remove(pi);
                        proof {
                            assert forall|k: Seq<char>, v: Seq<char>|
                                data_maps_to(data@, k, v) implies (data_maps_to(orig, k, v) && !(
                            k == key@ && v == value@)) by {
                                let i = choose|i: int|
                                    0 <= i < data@.len() && data@[i].key@ == k && data@[
                                    i].vals.deep_view().contains(v);
                                let oi = if i < pi { i } else { i + 1 };
                                assert(data@[i] == orig[oi]);
                                assert(data_maps_to(orig, k, v));
                                if k == key@ {
                                    assert(orig[oi].key@ == orig[pi as int].key@);
                                }
                            }
                            assert forall|k: Seq<char>, v: Seq<char>|
                                data_maps_to(orig, k, v) && !(k == key@ && v == value@) implies
                                data_maps_to(data@, k, v) by {
                                let i = choose|i: int|
                                    0 <= i < orig.len() && orig[i].key@ == k && orig[
                                    i].vals.deep_view().contains(v);
                                if i == pi {
                                    assert(v == value@);
                                    assert(false);
                                } else {
                                    let ni = if i < pi { i } else { i - 1 };
                                    assert(data@[ni] == orig[i]);
                                }
                            }
                            assert forall|i: int, j: int|
                                0 <= i < j < data@.len() implies data@[i].key@ != data@[
                            j].key@ by {
                                let oi = if i < pi { i } else { i + 1 };
                                let oj = if j < pi { j } else { j + 1 };
                                assert(data@[i] == orig[oi] && data@[j] == orig[oj]);
                            }
                            assert forall|i: int| 0 <= i < data@.len() implies distinct_seq(
                                #[trigger] data@[i].vals.deep_view(),
                            ) by {
                                let oi = if i < pi { i } else { i + 1 };
                                assert(data@[i] == orig[oi]);
                            }
                        }
                    } else {
                        proof {
                            assert(data@ =~= orig.update(pi as int, mid[pi as int]));
                            assert forall|k: Seq<char>, v: Seq<char>|
                                data_maps_to(data@, k, v) implies (data_maps_to(orig, k, v) && !(
                            k == key@ && v == value@)) by {
                                let i = choose|i: int|
                                    0 <= i < data@.len() && data@[i].key@ == k && data@[
                                    i].vals.deep_view().contains(v);
                                if i == pi {
                                    assert(vals0.contains(v) && v != value@);
                                    assert(orig[i].vals.deep_view().contains(v));
                                } else {
                                    assert(data@[i] == orig[i]);
                                    if k == key@ {
                                        assert(orig[i].key@ == orig[pi as int].key@);
                                    }
                                }
                            }
                            assert forall|k: Seq<char>, v: Seq<char>|
                                data_maps_to(orig, k, v) && !(k == key@ && v == value@) implies
                                data_maps_to(data@, k, v) by {
                                let i = choose|i: int|
                                    0 <= i < orig.len() && orig[i].key@ == k && orig[
                                    i].vals.deep_view().contains(v);
                                if i == pi {
                                    assert(v != value@);
                                    assert(data@[i].vals.deep_view().contains(v));
                                } else {
                                    assert(data@[i] == orig[i]);
                                }
                            }
                        }
                    }
                },
                None => {
                    proof {
                        assert forall|k: Seq<char>, v: Seq<char>|
                            data_maps_to(data@, k, v) <==> (data_maps_to(orig, k, v) && !(k
                            == key@ && v == value@)) by {
                            if data_maps_to(orig, k, v) && k == key@ && v == value@ {
                                let i = choose|i: int|
                                    0 <= i < orig.len() && orig[i].key@ == k && orig[
                                    i].vals.deep_view().contains(v);
                                assert(i == pi);
                            }
                        }
                    }
                },
            }
        },
        None => {
            proof {
                assert forall|k: Seq<char>, v: Seq<char>|
                    data_maps_to(data@, k, v) <==> (data_maps_to(orig, k, v) && !(k == key@ && v
                    == value@)) by {
                    if data_maps_to(orig, k, v) && k == key@ {
                        let i = choose|i: int|
                            0 <= i < orig.len() && orig[i].key@ == k && orig[
                            i].vals.deep_view().contains(v);
                    }
                }
            }
        },
    }
}

/// The index of `x`'s view among the views of `v`'s elements.
fn find_val(v: &Vec<String>, x: &String) -> (r: Option<usize>)
    ensures
        match r {
            Some(i) => i < v@.len() && v.deep_view()[i as int] == x@,
            None => !v.deep_view().contains(x@),
        },
{
    let n = v.len();
    let mut i: usize = 0;
    while i < n
        invariant
            n == v@.len(),
            i <= n,
            forall|j: int| 0 <= j < i ==> v.deep_view()[j] != x@,
        decreases n - i,
    {
        if v[i] == *x {
            return Some(i);
        }
        i += 1;
    }
    proof {
        if v.deep_view().contains(x@) {
            let j = choose|j: int| 0 <= j < v.deep_view().len() && v.deep_view()[j] == x@;
        }
    }
    None
}

} // verus!
