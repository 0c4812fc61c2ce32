//! The token-to-color mapping of a scheme: an insertion-ordered map
//! from token names to color values with unique keys.

use vstd::prelude::*;
use crate::text::str_eq;

verus! {

/// One entry list as seen by specifications: pairs of key and value views.
pub type Entries = Seq<(Seq<char>, Seq<char>)>;

/// Whether some entry carries the key.
pub open spec fn has_key(s: Entries, k: Seq<char>) -> bool {
    exists|i: int| 0 <= i < s.len() && s[i].0 == k
}

/// First-match lookup over an entry list.
pub open spec fn map_lookup(s: Entries, k: Seq<char>) -> Option<Seq<char>>
    decreases s.len(),
{
    if s.len() == 0 {
        None
    } else if s[0].0 == k {
        Some(s[0].1)
    } else {
        map_lookup(s.skip(1), k)
    }
}

/// Keys are pairwise distinct.
pub open spec fn keys_unique(s: Entries) -> bool {
    forall|i: int, j: int| 0 <= i < j < s.len() ==> s[i].0 != s[j].0
}

pub proof fn lemma_lookup_skip(s: Entries, k: Seq<char>, n: int)
    requires
        0 <= n <= s.len(),
        forall|j: int| 0 <= j < n ==> s[j].0 != k,
    ensures
        map_lookup(s, k) == map_lookup(s.skip(n), k),
    decreases n,
{
    if n > 0 {
        assert(s.len() > 0);
        assert(s[0].0 != k);
        assert(s.skip(1).skip(n - 1) =~= s.skip(n));
        lemma_lookup_skip(s.skip(1), k, n - 1);
    } else {
        assert(s.skip(0) =~= s);
    }
}

pub proof fn lemma_lookup_some(s: Entries, k: Seq<char>, i: int)
    requires
        0 <= i < s.len(),
        s[i].0 == k,
        forall|j: int| 0 <= j < i ==> s[j].0 != k,
    ensures
        map_lookup(s, k) == Some(s[i].1),
{
    lemma_lookup_skip(s, k, i);
    assert(s.skip(i)[0] == s[i]);
}

pub proof fn lemma_lookup_none(s: Entries, k: Seq<char>)
    requires
        forall|j: int| 0 <= j < s.len() ==> s[j].0 != k,
    ensures
        map_lookup(s, k) == None::<Seq<char>>,
{
    lemma_lookup_skip(s, k, s.len() as int);
    assert(s.skip(s.len() as int).len() == 0);
}

pub proof fn lemma_lookup_iff_has_key(s: Entries, k: Seq<char>)
    ensures
        (map_lookup(s, k) is Some) <==> has_key(s, k),
    decreases s.len(),
{
    if s.len() == 0 {
    } else if s[0].0 == k {
        assert(has_key(s, k)) by {
            assert(s[0].0 == k);
        }
    } else {
        lemma_lookup_iff_has_key(s.skip(1), k);
        if has_key(s, k) {
            let i = choose|i: int| 0 <= i < s.len() && s[i].0 == k;
            assert(i != 0);
            assert(s.skip(1)[i - 1].0 == k);
            assert(has_key(s.skip(1), k));
        }
        if has_key(s.skip(1), k) {
            let i = choose|i: int| 0 <= i < s.skip(1).len() && s.skip(1)[i].0 == k;
            assert(s[i + 1].0 == k);
            assert(has_key(s, k));
        }
    }
}

/// An ordered color mapping with unique token names.
#[derive(Debug, Clone, PartialEq, Eq)]
pub struct ColorMap {
    entries: Vec<(String, String)>,
}

impl ColorMap {
    /// The entry list this map stands for.
    pub closed spec fn view(&self) -> Entries {
        self.entries@.map_values(|p: (String, String)| (p.0@, p.1@))
    }

    /// Well-formed: no token occurs twice.
    pub open spec fn wf(&self) -> bool {
        keys_unique(self.view())
    }

    pub fn new() -> (r: ColorMap)
        ensures
            r.view() == Seq::<(Seq<char>, Seq<char>)>::empty(),
            r.wf(),
    {
        let r = ColorMap { entries: Vec::new() };
        proof {
            assert(r.view() =~= Seq::<(Seq<char>, Seq<char>)>::empty());
        }
        r
    }

    pub fn len(&self) -> (n: usize)
        ensures
            n == self.view().len(),
    {
        self.entries.len()
    }

    pub fn key_at(&self, i: usize) -> (k: String)
        requires
            i < self.view().len(),
        ensures
            k@ == self.view()[i as int].0,
    {
        self.entries[i].0.clone()
    }

    pub fn val_at(&self, i: usize) -> (v: String)
        requires
            i < self.view().len(),
        ensures
            v@ == self.view()[i as int].1,
    {
        self.entries[i].1.clone()
    }

    /// A copy with the same entries.
    pub fn duplicate(&self) -> (r: ColorMap)
        ensures
            r.view() == self.view(),
    {
        let mut entries: Vec<(String, String)> = Vec::new();
        let n = self.entries.len();
        let mut i: usize = 0;
        while i < n
            invariant
                n == self.entries@.len(),
                i <= n,
                entries@.len() == i,
                forall|j: int|
                    0 <= j < i ==> entries@[j].0@ == self.entries@[j].0@ && entries@[j].1@
                        == self.entries@[j].1@,
            decreases n - i,
        {
            let k = self.entries[i].0.clone();
            let v = self.entries[i].1.clone();
            entries.push((k, v));
            i = i + 1;
        }
        let r = ColorMap { entries };
        proof {
            assert(r.view() =~= self.view());
        }
        r
    }

    /// Looks a token up.
    pub fn get(&self, k: &str) -> (r: Option<String>)
        ensures
            match r {
                Some(v) => map_lookup(self.view(), k@) == Some(v@),
                None => map_lookup(self.view(), k@) == None::<Seq<char>>,
            },
    {
        let n = self.entries.len();
        let mut i: usize = 0;
        while i < n
            invariant
                n == self.view().len(),
                i <= n,
                forall|j: int| 0 <= j < i ==> self.view()[j].0 != k@,
            decreases n - i,
        {
            if str_eq(self.entries[i].0.as_str(), k) {
                let v = self.entries[i].1.clone();
                proof {
                    lemma_lookup_some(self.view(), k@, i as int);
                }
                return Some(v);
            }
            i = i + 1;
        }
        proof {
            lemma_lookup_none(self.view(), k@);
        }
        None
    }

    /// Inserts or replaces a token's value. An existing token keeps its
    /// position; a new token is appended.
    pub fn insert(&mut self, k: String, v: String)
        requires
            old(self).wf(),
        ensures
            final(self).wf(),
            !has_key(old(self).view(), k@) ==> final(self).view() == old(self).view().push(
                (k@, v@),
            ),
            forall|idx: int|
                0 <= idx < old(self).view().len() && old(self).view()[idx].0 == k@
                    ==> final(self).view() == old(self).view().update(idx, (k@, v@)),
    {
        let n = self.entries.len();
        let mut i: usize = 0;
        while i < n
            invariant
                n == self.view().len(),
                i <= n,
                self.wf(),
                *self == *old(self),
                forall|j: int| 0 <= j < i ==> self.view()[j].0 != k@,
            decreases n - i,
        {
            if str_eq(self.entries[i].0.as_str(), k.as_str()) {
                self.entries.remove(i);
                self.entries.insert(i, (k, v));
                proof {
                    let ov = old(self).view();
                    let nv = self.view();
                    assert(has_key(ov, k@)) by {
                        assert(ov[i as int].0 == k@);
                    }
                    assert(nv =~= ov.update(i as int, (k@, v@)));
                    assert forall|idx: int|
                        0 <= idx < ov.len() && ov[idx].0 == k@ implies nv == ov.update(
                        idx,
                        (k@, v@),
                    ) by {
                        if idx != i {
                            assert(ov[idx].0 == ov[i as int].0);
                        }
                    }
                    assert(keys_unique(nv)) by {
                        assert forall|a: int, b: int| 0 <= a < b < nv.len() implies nv[a].0
                            != nv[b].0 by {
                            if a != i && b != i {
                                assert(ov[a].0 != ov[b].0);
                            }
                        }
                    }
                }
                return ;
            }
            i = i + 1;
        }
        self.entries.push((k, v));
        proof {
            let ov = old(self).view();
            let nv = self.view();
            assert(nv =~= ov.push((k@, v@)));
            assert(keys_unique(nv)) by {
                assert forall|a: int, b: int| 0 <= a < b < nv.len() implies nv[a].0 != nv[b].0 by {
                    if b == ov.len() as int {
                        assert(nv[a].0 == ov[a].0);
                        assert(nv[b].0 == k@);
                    } else {
                        assert(ov[a].0 != ov[b].0);
                    }
                }
            }
        }
    }
}

} // verus!
