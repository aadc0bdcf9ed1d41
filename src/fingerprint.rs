//! The path-to-fingerprint map: what was recorded at the last build, or what
//! the files hold now.
use vstd::prelude::*;
use crate::includes::{index_of, index_of_from, lemma_index_of_from_bounds, lemma_index_of_from_shift};
use crate::text::same_text;

verus! {

/// The fingerprint that the entries give a path: the one of its last entry.
pub open spec fn find_last(es: Seq<(String, String)>, k: Seq<char>) -> Option<Seq<char>>
    decreases es.len(),
{
    if es.len() == 0 {
        None
    } else if es.last().0@ == k {
        Some(es.last().1@)
    } else {
        find_last(es.drop_last(), k)
    }
}

proof fn lemma_find_last_update(es: Seq<(String, String)>, j: int, e: (String, String), k: Seq<char>)
    requires
        0 <= j < es.len(),
        es[j].0@ == e.0@,
        forall|t: int| j < t < es.len() ==> es[t].0@ != e.0@,
    ensures
        find_last(es.update(j, e), k) == if k == e.0@ {
            Some(e.1@)
        } else {
            find_last(es, k)
        },
    decreases es.len(),
{
    let u = es.update(j, e);
    if j == es.len() - 1 {
        assert(u.drop_last() =~= es.drop_last());
    } else {
        assert(u.drop_last() =~= es.drop_last().update(j, e));
        lemma_find_last_update(es.drop_last(), j, e, k);
    }
}

proof fn lemma_find_last_absent(es: Seq<(String, String)>, k: Seq<char>)
    requires
        forall|t: int| 0 <= t < es.len() ==> es[t].0@ != k,
    ensures
        find_last(es, k).is_none(),
    decreases es.len(),
{
    if es.len() > 0 {
        lemma_find_last_absent(es.drop_last(), k);
    }
}

/// A map from file path to content fingerprint.
#[derive(Debug)]
pub struct FingerprintMap {
    pub entries: Vec<(String, String)>,
}

impl FingerprintMap {
    /// The fingerprint recorded for path `k`, if any.
    pub open spec fn get(&self, k: Seq<char>) -> Option<Seq<char>> {
        find_last(self.entries@, k)
    }

    pub fn new() -> (r: FingerprintMap)
        ensures
            forall|k: Seq<char>| r.get(k).is_none(),
    {
        FingerprintMap { entries: Vec::new() }
    }

    /// The fingerprint recorded for `path`.
    pub fn lookup(&self, path: &str) -> (r: Option<&String>)
        ensures
            match r {
                Some(h) => self.get(path@) == Some(h@),
                None => self.get(path@).is_none(),
            },
    {
        let mut i: usize = self.entries.len();
        assert(self.entries@.subrange(0, i as int) =~= self.entries@);
        while i > 0
            invariant
                i <= self.entries@.len(),
                find_last(self.entries@, path@) == find_last(self.entries@.subrange(0, i as int), path@),
            decreases i,
        {
            let ghost pre = self.entries@.subrange(0, i as int);
            if same_text(self.entries[i - 1].0.as_str(), path) {
                return Some(&self.entries[i - 1].1);
            }
            assert(pre.drop_last() =~= self.entries@.subrange(0, i - 1));
            i = i - 1;
        }
        None
    }

    /// The persisted form of the map: one `path<TAB>fingerprint` line per entry.
    pub fn to_text(&self) -> (r: String)
        ensures
            r@ == entries_text(self.entries@),
    {
        let mut r = String::new();
        let mut i: usize = 0;
        while i < self.entries.len()
            invariant
                i <= self.entries@.len(),
                r@ == entries_text(self.entries@.subrange(0, i as int)),
            decreases self.entries@.len() - i,
        {
            assert(self.entries@.subrange(0, i + 1).drop_last() =~= self.entries@.subrange(0, i as int));
            r.append(self.entries[i].0.as_str());
            r.append("\t");
            r.append(self.entries[i].1.as_str());
            r.append("\n");
            i = i + 1;
            assert(r@ =~= entries_text(self.entries@.subrange(0, i as int)));
        }
        assert(self.entries@.subrange(0, i as int) =~= self.entries@);
        r
    }

    /// Reads the persisted form: each line with a tab gives the entry of
    /// the path before the tab; lines without one are skipped.
    pub fn from_text(text: &str) -> (r: FingerprintMap)
        ensures
            entry_views(r.entries@) == text_entries(text@),
    {
        let n = text.unicode_len();
        let mut entries: Vec<(String, String)> = Vec::new();
        let mut pos: usize = 0;
        let mut done = false;
        assert(text@.subrange(0, n as int) =~= text@);
        while !done
            invariant
                n == text@.len(),
                pos <= n,
                done ==> entry_views(entries@) == text_entries(text@),
                !done ==> entry_views(entries@) + text_entries(text@.subrange(pos as int, n as int)) == text_entries(text@),
            decreases n - pos + (if done { 0int } else { 1int }),
        {
            let ghost rest = text@.subrange(pos as int, n as int);
            if pos == n {
                assert(text_entries(rest) =~= Seq::<(Seq<char>, Seq<char>)>::empty());
                assert(entry_views(entries@) + text_entries(rest) =~= entry_views(entries@));
                done = true;
            } else {
                let e = index_of(text, '\n', pos);
                proof {
                    lemma_index_of_from_bounds(text@, '\n', pos as int);
                    lemma_index_of_from_shift(text@, '\n', pos as int, 0);
                }
                let nl = e < n;
                let line = text.substring_char(pos, e);
                assert(line@ =~= rest.subrange(0, e - pos));
                let ll = line.unicode_len();
                let ghost before = entry_views(entries@);
                let t = index_of(line, '\t', 0);
                proof {
                    lemma_index_of_from_bounds(line@, '\t', 0);
                }
                if t < ll {
                    let entry = (String::from_str(line.substring_char(0, t)), String::from_str(line.substring_char(t + 1, ll)));
                    entries.push(entry);
                    assert(entry_views(entries@) =~= before.push((entry.0@, entry.1@)));
                }
                if nl {
                    assert(text@.subrange(e + 1, n as int) =~= rest.subrange(e - pos + 1, rest.len() as int));
                    assert(entry_views(entries@) + text_entries(text@.subrange(e + 1, n as int)) =~= before + text_entries(rest));
                    pos = e + 1;
                } else {
                    assert(entry_views(entries@) =~= before + text_entries(rest));
                    done = true;
                }
            }
        }
        FingerprintMap { entries }
    }

    /// Records `hash` as the fingerprint of `path`, replacing any earlier one.
    pub fn record(&mut self, path: &str, hash: &str)
        ensures
            forall|k: Seq<char>|
                #![trigger final(self).get(k)]
                final(self).get(k) == if k == path@ {
                    Some(hash@)
                } else {
                    old(self).get(k)
                },
    {
        let e = (String::from_str(path), String::from_str(hash));
        let mut i: usize = self.entries.len();
        while i > 0
            invariant
                i <= self.entries@.len(),
                self.entries@ == old(self).entries@,
                e.0@ == path@,
                e.1@ == hash@,
                forall|t: int| i <= t < self.entries@.len() ==> self.entries@[t].0@ != path@,
            decreases i,
        {
            if same_text(self.entries[i - 1].0.as_str(), path) {
                proof {
                    assert forall|k: Seq<char>| find_last(self.entries@.update(i - 1, e), k) == if k == path@ {
                        Some(hash@)
                    } else {
                        find_last(self.entries@, k)
                    } by {
                        lemma_find_last_update(self.entries@, i - 1, e, k);
                    }
                }
                self.entries.set(i - 1, e);
                return;
            }
            i = i - 1;
        }
        proof {
            lemma_find_last_absent(self.entries@, path@);
            assert forall|k: Seq<char>| #[trigger] find_last(self.entries@.push(e), k) == if k == path@ {
                Some(hash@)
            } else {
                find_last(self.entries@, k)
            } by {
                assert(self.entries@.push(e).drop_last() =~= self.entries@);
            }
        }
        self.entries.push(e);
    }
}

/// The text form of one entry: the path, a tab, the fingerprint, a newline.
pub open spec fn entry_line(e: (String, String)) -> Seq<char> {
    e.0@ + "\t"@ + e.1@ + "\n"@
}

/// The text form of a list of entries, one line each.
pub open spec fn entries_text(es: Seq<(String, String)>) -> Seq<char>
    decreases es.len(),
{
    if es.len() == 0 {
        Seq::empty()
    } else {
        entries_text(es.drop_last()) + entry_line(es.last())
    }
}

/// The entry that a line holds: the text before its first tab and the text
/// after it; none when the line has no tab.
pub open spec fn line_entry(l: Seq<char>) -> Option<(Seq<char>, Seq<char>)> {
    let t = index_of_from(l, '\t', 0);
    if 0 <= t < l.len() {
        Some((l.subrange(0, t), l.subrange(t + 1, l.len() as int)))
    } else {
        None
    }
}

/// The entries that a text holds, one for each line with a tab, in order.
pub open spec fn text_entries(t: Seq<char>) -> Seq<(Seq<char>, Seq<char>)>
    decreases t.len(),
{
    if t.len() == 0 {
        Seq::empty()
    } else {
        let e = index_of_from(t, '\n', 0);
        let nl = 0 <= e && e < t.len();
        let first: Seq<(Seq<char>, Seq<char>)> = match line_entry(t.subrange(0, e)) {
            Some(x) => seq![x],
            None => Seq::empty(),
        };
        if nl {
            first + text_entries(t.subrange(e + 1, t.len() as int))
        } else {
            first
        }
    }
}

/// The character views of a list of entries.
pub open spec fn entry_views(es: Seq<(String, String)>) -> Seq<(Seq<char>, Seq<char>)> {
    es.map_values(|e: (String, String)| (e.0@, e.1@))
}

proof fn lemma_index_of_from_at(s: Seq<char>, c: char, from: int, j: int)
    requires
        0 <= from <= j < s.len(),
        s[j] == c,
        forall|k: int| from <= k < j ==> s[k] != c,
    ensures
        index_of_from(s, c, from) == j,
    decreases j - from,
{
    if from < j {
        lemma_index_of_from_at(s, c, from + 1, j);
    }
}

proof fn lemma_text_entries_append(a: Seq<char>, b: Seq<char>)
    requires
        a.len() == 0 || a.last() == '\n',
    ensures
        text_entries(a + b) == text_entries(a) + text_entries(b),
    decreases a.len(),
{
    if a.len() == 0 {
        assert(a + b =~= b);
    } else {
        let e = index_of_from(a, '\n', 0);
        lemma_index_of_from_bounds(a, '\n', 0);
        let ab = a + b;
        assert forall|k: int| 0 <= k < e implies ab[k] != '\n' by {
            lemma_index_of_from_before(a, '\n', 0, k);
        }
        assert(e < a.len()) by {
            if e >= a.len() {
                lemma_index_of_from_before(a, '\n', 0, a.len() - 1);
            }
        }
        lemma_index_of_from_at(ab, '\n', 0, e);
        assert(ab.subrange(0, e) =~= a.subrange(0, e));
        let ra = a.subrange(e + 1, a.len() as int);
        assert(ab.subrange(e + 1, ab.len() as int) =~= ra + b);
        lemma_text_entries_append(ra, b);
    }
}

proof fn lemma_index_of_from_before(s: Seq<char>, c: char, from: int, k: int)
    requires
        0 <= from <= k < s.len(),
        k < index_of_from(s, c, from),
    ensures
        s[k] != c,
    decreases k - from,
{
    if s[from] != c && from < k {
        lemma_index_of_from_before(s, c, from + 1, k);
    }
}

/// Whether a path and a fingerprint can stand in the text form: no tab or
/// newline in the path, no newline in the fingerprint.
pub open spec fn storable(e: (String, String)) -> bool {
    &&& forall|i: int| 0 <= i < e.0@.len() ==> e.0@[i] != '\t' && e.0@[i] != '\n'
    &&& forall|i: int| 0 <= i < e.1@.len() ==> e.1@[i] != '\n'
}

proof fn lemma_entry_line_entries(e: (String, String))
    requires
        storable(e),
    ensures
        text_entries(entry_line(e)) == seq![(e.0@, e.1@)],
{
    reveal_strlit("\t");
    reveal_strlit("\n");
    let l = entry_line(e);
    let (k, h) = (e.0@, e.1@);
    let nl = l.len() - 1;
    assert forall|i: int| 0 <= i < nl implies l[i] != '\n' by {
        if i < k.len() {
            assert(l[i] == k[i]);
        } else if i > k.len() {
            assert(l[i] == h[i - k.len() - 1]);
        }
    }
    lemma_index_of_from_at(l, '\n', 0, nl);
    let line = l.subrange(0, nl);
    assert(line =~= k + "\t"@ + h);
    assert forall|i: int| 0 <= i < k.len() implies line[i] != '\t' by {
        assert(line[i] == k[i]);
    }
    lemma_index_of_from_at(line, '\t', 0, k.len() as int);
    assert(line.subrange(0, k.len() as int) =~= k);
    assert(line.subrange(k.len() as int + 1, line.len() as int) =~= h);
    assert(l.subrange(nl + 1, l.len() as int) =~= Seq::<char>::empty());
    assert(text_entries(Seq::<char>::empty()) =~= Seq::<(Seq<char>, Seq<char>)>::empty());
    assert(seq![(k, h)] + Seq::<(Seq<char>, Seq<char>)>::empty() =~= seq![(k, h)]);
}

proof fn lemma_entries_text_ends_with_newline(es: Seq<(String, String)>)
    ensures
        entries_text(es).len() == 0 || entries_text(es).last() == '\n',
    decreases es.len(),
{
    reveal_strlit("\n");
    if es.len() > 0 {
        lemma_entries_text_ends_with_newline(es.drop_last());
    }
}

/// Reading back the text form of a map gives its entries again, provided
/// no path holds a tab or newline and no fingerprint a newline.
pub proof fn lemma_text_round_trip(es: Seq<(String, String)>)
    requires
        forall|i: int| 0 <= i < es.len() ==> storable(#[trigger] es[i]),
    ensures
        text_entries(entries_text(es)) == entry_views(es),
    decreases es.len(),
{
    if es.len() == 0 {
        assert(entry_views(es) =~= Seq::<(Seq<char>, Seq<char>)>::empty());
    } else {
        let d = es.drop_last();
        assert forall|i: int| 0 <= i < d.len() implies storable(#[trigger] d[i]) by {
            assert(d[i] == es[i]);
        }
        lemma_text_round_trip(d);
        lemma_entries_text_ends_with_newline(d);
        lemma_text_entries_append(entries_text(d), entry_line(es.last()));
        assert(storable(es[es.len() - 1]));
        lemma_entry_line_entries(es.last());
        assert(entry_views(es) =~= entry_views(d).push((es.last().0@, es.last().1@)));
        assert(entry_views(d) + seq![(es.last().0@, es.last().1@)] =~= entry_views(d).push((es.last().0@, es.last().1@)));
    }
}

proof fn lemma_find_last_views(a: Seq<(String, String)>, b: Seq<(String, String)>, k: Seq<char>)
    requires
        entry_views(a) == entry_views(b),
    ensures
        find_last(a, k) == find_last(b, k),
    decreases a.len(),
{
    assert(a.len() == entry_views(a).len() && b.len() == entry_views(b).len());
    if a.len() > 0 {
        assert(entry_views(a)[a.len() - 1] == entry_views(b)[b.len() - 1]);
        assert(entry_views(a.drop_last()) =~= entry_views(a).drop_last());
        assert(entry_views(b.drop_last()) =~= entry_views(b).drop_last());
        lemma_find_last_views(a.drop_last(), b.drop_last(), k);
    }
}

/// A map read back from the text form of another holds the same
/// fingerprints, provided no path holds a tab or newline and no fingerprint
/// a newline.
pub proof fn lemma_store_round_trip(m: FingerprintMap, r: FingerprintMap)
    requires
        forall|i: int| 0 <= i < m.entries@.len() ==> storable(#[trigger] m.entries@[i]),
        entry_views(r.entries@) == text_entries(entries_text(m.entries@)),
    ensures
        forall|k: Seq<char>| r.get(k) == m.get(k),
{
    lemma_text_round_trip(m.entries@);
    assert forall|k: Seq<char>| r.get(k) == m.get(k) by {
        lemma_find_last_views(r.entries@, m.entries@, k);
    }
}

/// Whether a file counts as changed: it has no current or no recorded
/// fingerprint, or the two differ.
pub open spec fn changed(p: Seq<char>, current: FingerprintMap, stored: FingerprintMap) -> bool {
    match (current.get(p), stored.get(p)) {
        (Some(c), Some(s)) => c != s,
        _ => true,
    }
}

/// Whether `path` changed between the recorded and the current fingerprints.
pub fn is_changed(path: &str, current: &FingerprintMap, stored: &FingerprintMap) -> (r: bool)
    ensures
        r == changed(path@, *current, *stored),
{
    match (current.lookup(path), stored.lookup(path)) {
        (Some(c), Some(s)) => !same_text(c.as_str(), s.as_str()),
        _ => true,
    }
}

} // verus!
