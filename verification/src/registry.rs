use vstd::prelude::*;
use vstd::string::*;

use crate::similarity::spec_find_similar;
use crate::similarity::string_similarity;
use crate::types::Handler;
use crate::types::MetaMap;

verus! {

/// A registered endpoint: its handler, its metadata, and the alias
/// path precomputed from the `fallback` metadata key at registration.
#[derive(Debug)]
pub struct ApiEntry {
    pub handler: Handler,
    pub metadata: MetaMap,
    pub fallback_path: Option<String>,
}

impl ApiEntry {
    /// Well-formed: metadata keys are unique, the handler's stored
    /// response (if any) is well-formed, and `fallback_path` caches
    /// exactly the `fallback` metadata value.
    pub open spec fn wf(self) -> bool {
        &&& self.metadata.wf()
        &&& self.handler.wf()
        &&& (match self.fallback_path {
            Some(f) => self.metadata@.contains_key("fallback"@) && f@
                == self.metadata@["fallback"@],
            None => !self.metadata@.contains_key("fallback"@),
        })
    }
}

/// Entries keyed by non-empty path; keys are unique; order is the
/// order of (re-)registration.
pub open spec fn reg_wf(s: Seq<(String, ApiEntry)>) -> bool {
    &&& forall|i: int, j: int| 0 <= i < j < s.len() ==> s[i].0@ != s[j].0@
    &&& forall|i: int| 0 <= i < s.len() ==> (#[trigger] s[i].0@).len() > 0
    &&& forall|i: int| 0 <= i < s.len() ==> (#[trigger] s[i].1).wf()
}

/// The entry registered under path `p`, if any.
pub open spec fn spec_lookup(s: Seq<(String, ApiEntry)>, p: Seq<char>) -> Option<ApiEntry>
    decreases s.len(),
{
    if s.len() == 0 {
        None
    } else if s[0].0@ == p {
        Some(s[0].1)
    } else {
        spec_lookup(s.drop_first(), p)
    }
}

/// The first entry whose `fallback` metadata names `p`, with its own
/// registered path: the entry that answers for the missing path `p`.
pub open spec fn spec_lookup_fallback(s: Seq<(String, ApiEntry)>, p: Seq<char>) -> Option<
    (String, ApiEntry),
>
    decreases s.len(),
{
    if s.len() == 0 {
        None
    } else if s[0].1.fallback_path matches Some(f) && f@ == p {
        Some((s[0].0, s[0].1))
    } else {
        spec_lookup_fallback(s.drop_first(), p)
    }
}

/// The registered paths, in registry order.
pub open spec fn reg_keys(s: Seq<(String, ApiEntry)>) -> Seq<String> {
    s.map_values(|pair: (String, ApiEntry)| pair.0)
}

/// The entries with the entry for `p` (if any) taken out.
pub open spec fn spec_remove_key(s: Seq<(String, ApiEntry)>, p: Seq<char>) -> Seq<
    (String, ApiEntry),
>
    decreases s.len(),
{
    if s.len() == 0 {
        s
    } else if s[0].0@ == p {
        s.drop_first()
    } else {
        seq![s[0]] + spec_remove_key(s.drop_first(), p)
    }
}

/// How a registry changes when `handler` is registered under `path`
/// with `metadata`: an empty path is ignored; otherwise any earlier
/// entry for the path is dropped and the new entry appended, its
/// `fallback_path` caching the `fallback` metadata value.
pub open spec fn reg_registered(
    s0: Seq<(String, ApiEntry)>,
    s1: Seq<(String, ApiEntry)>,
    path: String,
    handler: Handler,
    metadata: MetaMap,
) -> bool {
    if path@.len() == 0 {
        s1 == s0
    } else {
        &&& s1.len() == spec_remove_key(s0, path@).len() + 1
        &&& s1.drop_last() == spec_remove_key(s0, path@)
        &&& s1.last().0 == path
        &&& s1.last().1.handler == handler
        &&& s1.last().1.metadata == metadata
        &&& (s1.last().1.fallback_path is Some <==> metadata@.contains_key("fallback"@))
        &&& (s1.last().1.fallback_path matches Some(f) ==> f@ == metadata@["fallback"@])
    }
}

/// Registry of API endpoints.
#[derive(Debug)]
pub struct ApiRegistry {
    entries: Vec<(String, ApiEntry)>,
}

proof fn lemma_remove_key_absent(s: Seq<(String, ApiEntry)>, p: Seq<char>)
    requires
        forall|i: int| 0 <= i < s.len() ==> s[i].0@ != p,
    ensures
        spec_remove_key(s, p) == s,
    decreases s.len(),
{
    if s.len() > 0 {
        lemma_remove_key_absent(s.drop_first(), p);
        assert(seq![s[0]] + s.drop_first() =~= s);
    }
}

proof fn lemma_remove_key_at(s: Seq<(String, ApiEntry)>, p: Seq<char>, i: int)
    requires
        forall|a: int, b: int| 0 <= a < b < s.len() ==> s[a].0@ != s[b].0@,
        0 <= i < s.len(),
        s[i].0@ == p,
    ensures
        spec_remove_key(s, p) == s.remove(i),
    decreases s.len(),
{
    if i == 0 {
        assert(s.drop_first() =~= s.remove(0));
    } else {
        assert(s[0].0@ != p);
        lemma_remove_key_at(s.drop_first(), p, i - 1);
        assert(seq![s[0]] + s.drop_first().remove(i - 1) =~= s.remove(i));
    }
}

/// After the entry for `p` is removed, no entry is keyed by `p`.
pub proof fn lemma_remove_key_no_match(s: Seq<(String, ApiEntry)>, p: Seq<char>)
    requires
        forall|a: int, b: int| 0 <= a < b < s.len() ==> s[a].0@ != s[b].0@,
    ensures
        forall|i: int|
            0 <= i < spec_remove_key(s, p).len() ==> (#[trigger] spec_remove_key(s, p)[i]).0@
                != p,
{
    if exists|i: int| 0 <= i < s.len() && s[i].0@ == p {
        let i = choose|i: int| 0 <= i < s.len() && s[i].0@ == p;
        lemma_remove_key_at(s, p, i);
        assert forall|j: int|
            0 <= j < s.remove(i).len() implies (#[trigger] s.remove(i)[j]).0@ != p by {
            if j < i {
                assert(s.remove(i)[j] == s[j]);
            } else {
                assert(s.remove(i)[j] == s[j + 1]);
            }
        }
    } else {
        lemma_remove_key_absent(s, p);
    }
}

/// A registry whose only entry for `path` stands at the end holds
/// exactly that entry under `path`: looking a path up right after it
/// was registered yields the entry just stored.
pub proof fn lemma_lookup_of_last(t: Seq<(String, ApiEntry)>, p: Seq<char>)
    requires
        t.len() >= 1,
        t.last().0@ == p,
        forall|i: int| 0 <= i < t.len() - 1 ==> (#[trigger] t[i]).0@ != p,
    ensures
        spec_lookup(t, p) == Some(t.last().1),
    decreases t.len(),
{
    if t.len() > 1 {
        assert(t[0].0@ != p);
        lemma_lookup_of_last(t.drop_first(), p);
        assert(t.drop_first().last() == t.last());
    }
}

/// A successful lookup returns one of the stored entries.
pub proof fn lemma_spec_lookup_found(s: Seq<(String, ApiEntry)>, p: Seq<char>)
    requires
        spec_lookup(s, p) is Some,
    ensures
        exists|i: int|
            0 <= i < s.len() && (#[trigger] s[i]).0@ == p && s[i].1 == spec_lookup(s, p)->0,
    decreases s.len(),
{
    if s.len() > 0 && s[0].0@ != p {
        lemma_spec_lookup_found(s.drop_first(), p);
        let i = choose|i: int|
            0 <= i < s.drop_first().len() && (#[trigger] s.drop_first()[i]).0@ == p
                && s.drop_first()[i].1 == spec_lookup(s.drop_first(), p)->0;
        assert(s[i + 1].0@ == p && s[i + 1].1 == spec_lookup(s, p)->0);
    }
}

/// Law: registering and then looking the same path up yields exactly
/// the entry just stored; a second registration under the same path
/// replaces the first, and nothing else moves.
pub proof fn lemma_register_then_lookup(
    s0: Seq<(String, ApiEntry)>,
    s1: Seq<(String, ApiEntry)>,
    path: String,
    handler: Handler,
    metadata: MetaMap,
)
    requires
        reg_wf(s0),
        path@.len() > 0,
        reg_registered(s0, s1, path, handler, metadata),
    ensures
        spec_lookup(s1, path@) is Some,
        (spec_lookup(s1, path@)->0).handler == handler,
        (spec_lookup(s1, path@)->0).metadata == metadata,
{
    lemma_remove_key_no_match(s0, path@);
    assert(forall|k: int|
        0 <= k < s1.len() - 1 ==> (#[trigger] s1[k]).0@ != path@) by {
        assert(forall|k: int|
            0 <= k < s1.drop_last().len() ==> (#[trigger] s1.drop_last()[k]).0@ != path@);
        assert(forall|k: int| 0 <= k < s1.len() - 1 ==> s1[k] == s1.drop_last()[k]);
    }
    lemma_lookup_of_last(s1, path@);
}

impl ApiRegistry {
    /// The stored entries, in order.
    pub closed spec fn entries_seq(self) -> Seq<(String, ApiEntry)> {
        self.entries@
    }

    /// Well-formed registry.
    pub open spec fn wf(self) -> bool {
        reg_wf(self.entries_seq())
    }

    pub fn new() -> (r: ApiRegistry)
        ensures
            r.wf(),
            r.entries_seq().len() == 0,
    {
        ApiRegistry { entries: Vec::new() }
    }

    fn find_index(&self, path: &String) -> (r: Option<usize>)
        ensures
            (match r {
                Some(i) => i < self.entries_seq().len() && self.entries_seq()[i as int].0@
                    == path@,
                None => forall|i: int|
                    0 <= i < self.entries_seq().len() ==> (#[trigger] self.entries_seq()[i]).0@
                        != path@,
            }),
    {
        let mut i: usize = 0;
        while i < self.entries.len()
            invariant
                i <= self.entries@.len(),
                forall|j: int| 0 <= j < i ==> (#[trigger] self.entries@[j]).0@ != path@,
            decreases self.entries@.len() - i,
        {
            if self.entries[i].0 == *path {
                return Some(i);
            }
            i = i + 1;
        }
        None
    }

    /// Register `handler` under `path`, replacing any earlier entry
    /// for the same path (last writer wins). The `fallback` metadata
    /// key, if present, is cached as the entry's alias declaration.
    /// An empty path is not a valid endpoint name and is ignored.
    pub fn register(&mut self, path: String, handler: Handler, metadata: MetaMap)
        requires
            old(self).wf(),
            metadata.wf(),
            handler.wf(),
        ensures
            final(self).wf(),
            reg_registered(
                old(self).entries_seq(),
                final(self).entries_seq(),
                path,
                handler,
                metadata,
            ),
    {
        if path.as_str().is_empty() {
            return ;
        }
        let ghost s0 = self.entries@;
        let fallback_key = String::from_str("fallback");
        let fallback_path: Option<String> = match metadata.get(&fallback_key) {
            Some(v) => Some(v.clone()),
            None => None,
        };
        let entry = ApiEntry { handler, metadata, fallback_path };
        match self.find_index(&path) {
            Some(i) => {
                self.entries.remove(i);
                proof {
                    lemma_remove_key_at(s0, path@, i as int);
                }
            },
            None => {
                proof {
                    lemma_remove_key_absent(s0, path@);
                }
            },
        }
        let ghost s1 = self.entries@;
        proof {
            lemma_remove_key_no_match(s0, path@);
        }
        self.entries.push((path, entry));
        proof {
            assert(self.entries@.drop_last() =~= s1);
        }
    }

    /// The entry registered under `path`, if any.
    pub fn lookup(&self, path: &String) -> (r: Option<&ApiEntry>)
        requires
            self.wf(),
        ensures
            (match r {
                Some(e) => spec_lookup(self.entries_seq(), path@) == Some(*e),
                None => spec_lookup(self.entries_seq(), path@) is None,
            }),
    {
        proof {
            assert(self.entries@.skip(0) =~= self.entries@);
        }
        let mut i: usize = 0;
        while i < self.entries.len()
            invariant
                i <= self.entries@.len(),
                spec_lookup(self.entries@, path@) == spec_lookup(
                    self.entries@.skip(i as int),
                    path@,
                ),
            decreases self.entries@.len() - i,
        {
            let ghost rest = self.entries@.skip(i as int);
            proof {
                assert(rest[0] == self.entries@[i as int]);
            }
            if self.entries[i].0 == *path {
                return Some(&self.entries[i].1);
            }
            proof {
                assert(rest.drop_first() =~= self.entries@.skip(i + 1));
            }
            i = i + 1;
        }
        None
    }

    /// The first entry whose `fallback` metadata names `path`, with
    /// its own registered path: who answers for this missing path?
    pub fn lookup_fallback(&self, path: &String) -> (r: Option<(&String, &ApiEntry)>)
        requires
            self.wf(),
        ensures
            (match r {
                Some(p) => spec_lookup_fallback(self.entries_seq(), path@) == Some(
                    (*p.0, *p.1),
                ),
                None => spec_lookup_fallback(self.entries_seq(), path@) is None,
            }),
    {
        proof {
            assert(self.entries@.skip(0) =~= self.entries@);
        }
        let mut i: usize = 0;
        while i < self.entries.len()
            invariant
                i <= self.entries@.len(),
                spec_lookup_fallback(self.entries@, path@) == spec_lookup_fallback(
                    self.entries@.skip(i as int),
                    path@,
                ),
            decreases self.entries@.len() - i,
        {
            let ghost rest = self.entries@.skip(i as int);
            proof {
                assert(rest[0] == self.entries@[i as int]);
            }
            let mut hit = false;
            match &self.entries[i].1.fallback_path {
                Some(f) => {
                    if *f == *path {
                        hit = true;
                    }
                },
                None => {},
            }
            if hit {
                return Some((&self.entries[i].0, &self.entries[i].1));
            }
            proof {
                assert(rest.drop_first() =~= self.entries@.skip(i + 1));
            }
            i = i + 1;
        }
        None
    }

    /// The first registered path whose similarity to `path` reaches
    /// `threshold` (in hundredths), with its score.
    pub fn lookup_similar(&self, path: &String, threshold: u64) -> (r: Option<(String, u64)>)
        requires
            self.wf(),
        ensures
            (match r {
                Some(p) => spec_find_similar(
                    reg_keys(self.entries_seq()),
                    path@,
                    threshold as int,
                ) == Some((p.0@, p.1 as int)),
                None => spec_find_similar(
                    reg_keys(self.entries_seq()),
                    path@,
                    threshold as int,
                ) is None,
            }),
    {
        let ghost keys = reg_keys(self.entries@);
        proof {
            assert(keys.skip(0) =~= keys);
        }
        let mut i: usize = 0;
        while i < self.entries.len()
            invariant
                keys == reg_keys(self.entries@),
                i <= self.entries@.len(),
                spec_find_similar(keys, path@, threshold as int) == spec_find_similar(
                    keys.skip(i as int),
                    path@,
                    threshold as int,
                ),
            decreases self.entries@.len() - i,
        {
            let ghost rest = keys.skip(i as int);
            proof {
                assert(rest[0] == keys[i as int]);
                assert(keys[i as int] == self.entries@[i as int].0);
            }
            let score = string_similarity(&self.entries[i].0, path);
            if score >= threshold {
                return Some((self.entries[i].0.clone(), score));
            }
            proof {
                assert(rest.drop_first() =~= keys.skip(i + 1));
            }
            i = i + 1;
        }
        None
    }
}

} // verus!
