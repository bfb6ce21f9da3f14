use vstd::prelude::*;
use vstd::string::StrSliceExecFns;
use vstd::string::StringExecFns;

use crate::errors::EnvironmentEncodingError;

verus! {

/// An association list from variable names to values with pairwise distinct
/// keys, abstracted as a finite map from name characters to value characters.
pub struct StringMap {
    entries: Vec<(String, String)>,
}

/// The map denoted by a sequence of entries: a later entry overrides an
/// earlier one with the same key.
pub open spec fn map_of(entries: Seq<(String, String)>) -> Map<Seq<char>, Seq<char>>
    decreases entries.len(),
{
    if entries.len() == 0 {
        Map::<Seq<char>, Seq<char>>::empty()
    } else {
        map_of(entries.drop_last()).insert(entries.last().0@, entries.last().1@)
    }
}

/// No two entries share a key.
pub open spec fn keys_unique(entries: Seq<(String, String)>) -> bool {
    forall|i: int, j: int|
        0 <= i < j < entries.len() ==> entries[i].0@ != entries[j].0@
}

impl View for StringMap {
    type V = Map<Seq<char>, Seq<char>>;

    closed spec fn view(&self) -> Map<Seq<char>, Seq<char>> {
        map_of(self.entries@)
    }
}

proof fn lemma_map_of_dom(entries: Seq<(String, String)>, k: Seq<char>)
    ensures
        map_of(entries).dom().contains(k) <==> exists|i: int|
            0 <= i < entries.len() && #[trigger] entries[i].0@ == k,
    decreases entries.len(),
{
    if entries.len() > 0 {
        lemma_map_of_dom(entries.drop_last(), k);
        if map_of(entries).dom().contains(k) {
            if k == entries.last().0@ {
                assert(entries[entries.len() - 1].0@ == k);
            } else {
                let i = choose|i: int|
                    0 <= i < entries.drop_last().len() && #[trigger] entries.drop_last()[i].0@ == k;
                assert(entries[i].0@ == k);
            }
        }
        if exists|i: int| 0 <= i < entries.len() && #[trigger] entries[i].0@ == k {
            let i = choose|i: int| 0 <= i < entries.len() && #[trigger] entries[i].0@ == k;
            if i < entries.len() - 1 {
                assert(entries.drop_last()[i].0@ == k);
            }
        }
    }
}

proof fn lemma_map_of_index(entries: Seq<(String, String)>, i: int)
    requires
        keys_unique(entries),
        0 <= i < entries.len(),
    ensures
        map_of(entries).dom().contains(entries[i].0@),
        map_of(entries)[entries[i].0@] == entries[i].1@,
    decreases entries.len(),
{
    if i < entries.len() - 1 {
        assert(keys_unique(entries.drop_last())) by {
            assert(forall|p: int, q: int|
                0 <= p < q < entries.drop_last().len() ==> entries.drop_last()[p].0@
                    != entries.drop_last()[q].0@) by {
                assert(forall|p: int| 0 <= p < entries.drop_last().len()
                    ==> entries.drop_last()[p] == entries[p]);
            }
        }
        lemma_map_of_index(entries.drop_last(), i);
        assert(entries.drop_last()[i] == entries[i]);
        assert(entries.last().0@ != entries[i].0@);
    }
}

proof fn lemma_map_of_update(entries: Seq<(String, String)>, i: int, p: (String, String))
    requires
        keys_unique(entries),
        0 <= i < entries.len(),
        entries[i].0@ == p.0@,
    ensures
        map_of(entries.update(i, p)) == map_of(entries).insert(p.0@, p.1@),
    decreases entries.len(),
{
    let updated = entries.update(i, p);
    if i == entries.len() - 1 {
        assert(updated.drop_last() =~= entries.drop_last());
        assert(updated.last() == p);
        assert(map_of(updated) == map_of(entries.drop_last()).insert(p.0@, p.1@));
        assert(map_of(entries.drop_last()).insert(entries.last().0@, entries.last().1@).insert(
            p.0@,
            p.1@,
        ) =~= map_of(entries.drop_last()).insert(p.0@, p.1@));
    } else {
        assert(keys_unique(entries.drop_last())) by {
            assert(forall|a: int| 0 <= a < entries.drop_last().len()
                ==> entries.drop_last()[a] == entries[a]);
        }
        assert(entries.drop_last()[i] == entries[i]);
        lemma_map_of_update(entries.drop_last(), i, p);
        assert(updated.drop_last() =~= entries.drop_last().update(i, p));
        assert(updated.last() == entries.last());
        assert(entries.last().0@ != p.0@);
        assert(map_of(updated) == map_of(entries.drop_last().update(i, p)).insert(
            entries.last().0@,
            entries.last().1@,
        ));
        assert(map_of(entries.drop_last()).insert(p.0@, p.1@).insert(
            entries.last().0@,
            entries.last().1@,
        ) =~= map_of(entries.drop_last()).insert(entries.last().0@, entries.last().1@).insert(
            p.0@,
            p.1@,
        ));
    }
}

/// The serialized form of one binding.
pub open spec fn env_line(k: Seq<char>, v: Seq<char>) -> Seq<char> {
    k + "="@ + v
}

/// No bound name or value holds an embedded NUL character.
pub open spec fn nul_free(m: Map<Seq<char>, Seq<char>>) -> bool {
    forall|k: Seq<char>| #[trigger]
        m.dom().contains(k) ==> !k.contains('\0') && !m[k].contains('\0')
}

/// `line` is the serialization of one binding of `m`.
pub open spec fn line_matches(m: Map<Seq<char>, Seq<char>>, line: Seq<char>) -> bool {
    exists|k: Seq<char>|
        #![trigger m.dom().contains(k)]
        m.dom().contains(k) && line == env_line(k, m[k])
}

/// `lines` serializes `m`: one line for each binding and nothing else.
pub open spec fn lines_of(m: Map<Seq<char>, Seq<char>>, lines: Seq<Seq<char>>) -> bool {
    &&& forall|k: Seq<char>| #[trigger]
        m.dom().contains(k) ==> lines.contains(env_line(k, m[k]))
    &&& forall|t: int| #![trigger lines[t]]
        0 <= t < lines.len() ==> line_matches(m, lines[t])
    &&& lines.len() == m.dom().len()
}

/// Reports whether `s` holds an embedded NUL character.
fn contains_nul(s: &str) -> (r: bool)
    ensures
        r == s@.contains('\0'),
{
    let n = s.unicode_len();
    let mut i: usize = 0;
    while i < n
        invariant
            n == s@.len(),
            i <= n,
            forall|j: int| 0 <= j < i ==> s@[j] != '\0',
        decreases n - i,
    {
        if s.get_char(i) == '\0' {
            assert(s@.contains('\0'));
            return true;
        }
        i += 1;
    }
    proof {
        if s@.contains('\0') {
            let j = choose|j: int| 0 <= j < s@.len() && s@[j] == '\0';
            assert(false);
        }
    }
    false
}

proof fn lemma_map_of_dom_len(entries: Seq<(String, String)>)
    requires
        keys_unique(entries),
    ensures
        map_of(entries).dom().finite(),
        map_of(entries).dom().len() == entries.len(),
    decreases entries.len(),
{
    broadcast use vstd::set::group_set_axioms;

    if entries.len() == 0 {
        assert(map_of(entries).dom() =~= Set::<Seq<char>>::empty());
    } else {
        assert(keys_unique(entries.drop_last())) by {
            assert(forall|a: int| 0 <= a < entries.drop_last().len()
                ==> entries.drop_last()[a] == entries[a]);
        }
        lemma_map_of_dom_len(entries.drop_last());
        assert(!map_of(entries.drop_last()).dom().contains(entries.last().0@)) by {
            lemma_map_of_dom(entries.drop_last(), entries.last().0@);
            if map_of(entries.drop_last()).dom().contains(entries.last().0@) {
                let i = choose|i: int|
                    0 <= i < entries.drop_last().len() && #[trigger] entries.drop_last()[i].0@
                        == entries.last().0@;
                assert(entries[i].0@ == entries[entries.len() - 1].0@);
                assert(false);
            }
        }
        assert(map_of(entries).dom() =~= map_of(entries.drop_last()).dom().insert(
            entries.last().0@,
        ));
    }
}

#[verifier::rlimit(100)]
proof fn lemma_lines_of(entries: Seq<(String, String)>, lv: Seq<Seq<char>>)
    requires
        keys_unique(entries),
        lv.len() == entries.len(),
        forall|j: int| #![trigger lv[j]]
            0 <= j < entries.len() ==> lv[j] == env_line(entries[j].0@, entries[j].1@),
        forall|j: int| #![trigger entries[j]]
            0 <= j < entries.len() ==> !entries[j].0@.contains('\0')
                && !entries[j].1@.contains('\0'),
    ensures
        lines_of(map_of(entries), lv),
        nul_free(map_of(entries)),
{
    let m = map_of(entries);
    lemma_map_of_dom_len(entries);
    assert forall|k: Seq<char>| #[trigger] m.dom().contains(k) implies lv.contains(
        env_line(k, m[k]),
    ) && !k.contains('\0') && !m[k].contains('\0') by {
        lemma_map_of_dom(entries, k);
        let j = choose|j: int| 0 <= j < entries.len() && #[trigger] entries[j].0@ == k;
        lemma_map_of_index(entries, j);
        assert(lv[j] == env_line(k, m[k]));
        assert(lv.contains(env_line(k, m[k])));
    }
    assert forall|t: int| #![trigger lv[t]] 0 <= t < lv.len() implies line_matches(m, lv[t]) by {
        lemma_map_of_index(entries, t);
        assert(m.dom().contains(entries[t].0@) && lv[t] == env_line(
            entries[t].0@,
            m[entries[t].0@],
        ));
    }
}

impl StringMap {
    /// The entry keys are pairwise distinct, so each name is bound at most once.
    pub closed spec fn wf(&self) -> bool {
        keys_unique(self.entries@)
    }

    pub fn new() -> (r: StringMap)
        ensures
            r.wf(),
            r@ == Map::<Seq<char>, Seq<char>>::empty(),
    {
        StringMap { entries: Vec::new() }
    }

    /// Binds `key` to `value`, replacing any earlier binding of `key`.
    pub fn insert(&mut self, key: String, value: String)
        requires
            old(self).wf(),
        ensures
            final(self).wf(),
            final(self)@ == old(self)@.insert(key@, value@),
    {
        let n = self.entries.len();
        let mut i: usize = 0;
        while i < n
            invariant
                old(self).wf(),
                n == self.entries.len(),
                *self == *old(self),
                i <= n,
                forall|j: int| 0 <= j < i ==> self.entries@[j].0@ != key@,
            decreases n - i,
        {
            if self.entries[i].0 == key {
                proof {
                    lemma_map_of_update(self.entries@, i as int, (key, value));
                }
                self.entries[i] = (key, value);
                proof {
                    assert(keys_unique(self.entries@)) by {
                        assert(forall|a: int| 0 <= a < self.entries@.len() && a != i
                            ==> self.entries@[a] == old(self).entries@[a]);
                        assert(self.entries@[i as int].0@ == old(self).entries@[i as int].0@);
                    }
                }
                return;
            }
            i += 1;
        }
        let ghost pre = self.entries@;
        self.entries.push((key, value));
        proof {
            assert(self.entries@.drop_last() =~= pre);
            assert(keys_unique(self.entries@)) by {
                assert(forall|a: int| 0 <= a < pre.len() ==> self.entries@[a] == pre[a]);
                assert(self.entries@[pre.len() as int].0@ == key@);
            }
        }
    }

    /// Looks up the value bound to `key`.
    pub fn get(&self, key: &str) -> (r: Option<&String>)
        requires
            self.wf(),
        ensures
            match r {
                Some(v) => self@.dom().contains(key@) && v@ == self@[key@],
                None => !self@.dom().contains(key@),
            },
    {
        let owned_key: String = key.to_owned();
        let n = self.entries.len();
        let mut i: usize = 0;
        while i < n
            invariant
                self.wf(),
                owned_key@ == key@,
                n == self.entries.len(),
                i <= n,
                forall|j: int| 0 <= j < i ==> self.entries@[j].0@ != key@,
            decreases n - i,
        {
            if self.entries[i].0 == owned_key {
                proof {
                    lemma_map_of_index(self.entries@, i as int);
                }
                return Some(&self.entries[i].1);
            }
            i += 1;
        }
        proof {
            lemma_map_of_dom(self.entries@, key@);
        }
        None
    }

    /// Serializes the map as one `name=value` string per binding, failing
    /// when any name or value holds an embedded NUL character.
    #[verifier::rlimit(50)]
    pub fn to_lines(&self) -> (r: Result<Vec<String>, EnvironmentEncodingError>)
        requires
            self.wf(),
        ensures
            match r {
                Ok(lines) => lines_of(self@, lines.deep_view()) && nul_free(self@),
                Err(e) => !nul_free(self@),
            },
    {
        let mut lines: Vec<String> = Vec::new();
        let n = self.entries.len();
        let mut i: usize = 0;
        while i < n
            invariant
                self.wf(),
                n == self.entries@.len(),
                i <= n,
                lines@.len() == i,
                forall|j: int| #![trigger lines@[j]]
                    0 <= j < i ==> lines@[j]@ == env_line(
                        self.entries@[j].0@,
                        self.entries@[j].1@,
                    ),
                forall|j: int| #![trigger self.entries@[j]]
                    0 <= j < i ==> !self.entries@[j].0@.contains('\0')
                        && !self.entries@[j].1@.contains('\0'),
            decreases n - i,
        {
            if contains_nul(self.entries[i].0.as_str()) || contains_nul(
                self.entries[i].1.as_str(),
            ) {
                proof {
                    lemma_map_of_index(self.entries@, i as int);
                    assert(!nul_free(self@));
                }
                return Err(EnvironmentEncodingError);
            }
            let mut line = self.entries[i].0.clone();
            line.append("=");
            line.append(self.entries[i].1.as_str());
            lines.push(line);
            i += 1;
        }
        proof {
            let lv = lines.deep_view();
            assert(lv.len() == n);
            assert(forall|j: int| #![trigger lv[j]] 0 <= j < n ==> lv[j] == lines@[j]@);
            lemma_lines_of(self.entries@, lv);
        }
        Ok(lines)
    }

    /// Reports whether `key` is bound.
    pub fn contains_key(&self, key: &str) -> (r: bool)
        requires
            self.wf(),
        ensures
            r == self@.dom().contains(key@),
    {
        self.get(key).is_some()
    }
}

} // verus!
