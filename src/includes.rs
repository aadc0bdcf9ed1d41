//! Quoted-include extraction and the transitive include closure of a source.
use vstd::prelude::*;
use crate::config::{views, lemma_views_push};
use crate::text::{ends_with_seq, has_prefix, has_suffix, same_text, starts_with_seq, text_in};

verus! {

/// The first position at or after `from` that holds `c`, or the length.
pub open spec fn index_of_from(t: Seq<char>, c: char, from: int) -> int
    decreases t.len() - from,
{
    if from < 0 || from >= t.len() {
        t.len() as int
    } else if t[from] == c {
        from
    } else {
        index_of_from(t, c, from + 1)
    }
}

/// The text of the directive that starts a quoted include.
pub open spec fn directive() -> Seq<char> {
    "#include \""@
}

/// What a line includes: for a line that starts with the directive, the
/// text after it up to the next quote or the end of the line.
pub open spec fn line_token(l: Seq<char>) -> Option<Seq<char>> {
    if starts_with_seq(l, directive()) {
        Some(l.subrange(10, index_of_from(l, '"', 10)))
    } else {
        None
    }
}

/// A line without the carriage return that ends it when a newline follows.
pub open spec fn trim_cr(l: Seq<char>, newline_follows: bool) -> Seq<char> {
    if newline_follows && l.len() > 0 && l.last() == '\r' {
        l.drop_last()
    } else {
        l
    }
}

/// The quoted includes of a text, in order, one for each line that starts
/// with the directive.
pub open spec fn include_tokens(t: Seq<char>) -> Seq<Seq<char>>
    decreases t.len(),
{
    if t.len() == 0 {
        Seq::empty()
    } else {
        let e = index_of_from(t, '\n', 0);
        let nl = 0 <= e && e < t.len();
        let l = trim_cr(t.subrange(0, e), nl);
        let first: Seq<Seq<char>> = match line_token(l) {
            Some(tok) => seq![tok],
            None => Seq::empty(),
        };
        if nl {
            first + include_tokens(t.subrange(e + 1, t.len() as int))
        } else {
            first
        }
    }
}

pub(crate) proof fn lemma_index_of_from_bounds(t: Seq<char>, c: char, from: int)
    requires
        0 <= from,
    ensures
        from <= index_of_from(t, c, from) <= t.len() || (from > t.len() && index_of_from(t, c, from) == t.len()),
        index_of_from(t, c, from) < t.len() ==> t[index_of_from(t, c, from)] == c,
    decreases t.len() - from,
{
    if from < t.len() && t[from] != c {
        lemma_index_of_from_bounds(t, c, from + 1);
    }
}

pub(crate) proof fn lemma_index_of_from_shift(t: Seq<char>, c: char, p: int, from: int)
    requires
        0 <= p <= t.len(),
        0 <= from,
    ensures
        index_of_from(t.subrange(p, t.len() as int), c, from) == index_of_from(t, c, p + from) - p,
    decreases t.len() - p - from,
{
    let s = t.subrange(p, t.len() as int);
    if from < s.len() && s[from] != c {
        lemma_index_of_from_shift(t, c, p, from + 1);
    }
}

pub(crate) fn index_of(s: &str, c: char, from: usize) -> (r: usize)
    requires
        from <= s@.len(),
    ensures
        r == index_of_from(s@, c, from as int),
{
    let n = s.unicode_len();
    let mut i: usize = from;
    while i < n
        invariant
            from <= i <= n,
            n == s@.len(),
            index_of_from(s@, c, from as int) == index_of_from(s@, c, i as int),
        decreases n - i,
    {
        if s.get_char(i) == c {
            return i;
        }
        i = i + 1;
    }
    i
}

/// The quoted includes of a file's text, in order.
pub fn get_include_substrings(text: &str) -> (r: Vec<String>)
    ensures
        views(r@) == include_tokens(text@),
{
    let n = text.unicode_len();
    let mut r: Vec<String> = Vec::new();
    let mut pos: usize = 0;
    let mut done = false;
    assert(text@.subrange(0, n as int) =~= text@);
    while !done
        invariant
            n == text@.len(),
            pos <= n,
            done ==> views(r@) == include_tokens(text@),
            !done ==> views(r@) + include_tokens(text@.subrange(pos as int, n as int)) == include_tokens(text@),
        decreases n - pos + (if done { 0int } else { 1int }),
    {
        let ghost rest = text@.subrange(pos as int, n as int);
        if pos == n {
            assert(include_tokens(rest) =~= Seq::<Seq<char>>::empty());
            assert(views(r@) + include_tokens(rest) =~= views(r@));
            done = true;
        } else {
            let e = index_of(text, '\n', pos);
            proof {
                lemma_index_of_from_bounds(text@, '\n', pos as int);
                lemma_index_of_from_shift(text@, '\n', pos as int, 0);
            }
            let nl = e < n;
            let raw = text.substring_char(pos, e);
            assert(raw@ =~= rest.subrange(0, e - pos));
            let rl = raw.unicode_len();
            let line = if nl && rl > 0 && raw.get_char(rl - 1) == '\r' {
                raw.substring_char(0, rl - 1)
            } else {
                raw
            };
            assert(line@ =~= trim_cr(rest.subrange(0, e - pos), nl));
            let ghost before = views(r@);
            if has_prefix(line, "#include \"") {
                let ll = line.unicode_len();
                proof {
                    reveal_strlit("#include \"");
                }
                let q = index_of(line, '"', 10);
                proof {
                    lemma_index_of_from_bounds(line@, '"', 10);
                }
                let tok = String::from_str(line.substring_char(10, q));
                proof {
                    lemma_views_push(r@, tok);
                }
                r.push(tok);
            }
            if nl {
                assert(text@.subrange(e + 1, n as int) =~= rest.subrange(e - pos + 1, rest.len() as int));
                assert(views(r@) + include_tokens(text@.subrange(e + 1, n as int)) =~= before + include_tokens(rest));
                pos = e + 1;
            } else {
                assert(views(r@) =~= before + include_tokens(rest));
                done = true;
            }
        }
    }
    r
}

/// A header file found under an include directory, with its own quoted includes.
#[derive(Debug)]
pub struct Header {
    pub path: String,
    pub includes: Vec<String>,
}

/// Whether path `p` ends with the path `tok`, component by component.
pub open spec fn path_ends_with(p: Seq<char>, tok: Seq<char>) -> bool {
    p == tok || ends_with_seq(p, "/"@ + tok)
}

/// Whether one of `tokens` names the file at `p`.
pub open spec fn matched_by(tokens: Seq<String>, p: Seq<char>) -> bool {
    exists|t: int| 0 <= t < tokens.len() && path_ends_with(p, #[trigger] tokens[t]@)
}

/// One step of the closure: a header is marked when it was marked before,
/// or when a marked header's own quoted includes name it.
pub open spec fn next_layer(hs: Seq<Header>, prev: Seq<bool>) -> Seq<bool> {
    Seq::new(
        hs.len(),
        |i: int|
            prev[i] || exists|j: int| 0 <= j < hs.len() && #[trigger] prev[j] && matched_by(hs[j].includes@, hs[i].path@),
    )
}

/// The headers reached from a source with quoted includes `tokens` through
/// at most `k` headers in between.
pub open spec fn layer(tokens: Seq<String>, hs: Seq<Header>, k: int) -> Seq<bool>
    decreases k,
{
    if k <= 0 {
        Seq::new(hs.len(), |i: int| matched_by(tokens, hs[i].path@))
    } else {
        next_layer(hs, layer(tokens, hs, k - 1))
    }
}

pub open spec fn reached(tokens: Seq<String>, hs: Seq<Header>, k: int, i: int) -> bool {
    layer(tokens, hs, k)[i]
}

/// The include closure: the paths of the headers reached, each once, in
/// the order of their first entry in `hs`.
pub open spec fn closure_upto(tokens: Seq<String>, hs: Seq<Header>, m: int) -> Seq<Seq<char>>
    decreases m,
{
    if m <= 0 {
        Seq::empty()
    } else {
        let r = closure_upto(tokens, hs, m - 1);
        if reached(tokens, hs, hs.len() as int, m - 1) && !r.contains(hs[m - 1].path@) {
            r.push(hs[m - 1].path@)
        } else {
            r
        }
    }
}

/// The closure lists each header path once, and lists exactly the paths
/// of the headers reached.
pub proof fn lemma_closure_is_set(tokens: Seq<String>, hs: Seq<Header>, m: int)
    requires
        0 <= m <= hs.len(),
    ensures
        closure_upto(tokens, hs, m).no_duplicates(),
        forall|p: Seq<char>| #[trigger] closure_upto(tokens, hs, m).contains(p) <==> exists|i: int|
            0 <= i < m && reached(tokens, hs, hs.len() as int, i) && hs[i].path@ == p,
    decreases m,
{
    if m > 0 {
        lemma_closure_is_set(tokens, hs, m - 1);
        let r = closure_upto(tokens, hs, m - 1);
        let q = hs[m - 1].path@;
        assert forall|p: Seq<char>| #[trigger] closure_upto(tokens, hs, m).contains(p) <==> exists|i: int|
            0 <= i < m && reached(tokens, hs, hs.len() as int, i) && hs[i].path@ == p by {
            if closure_upto(tokens, hs, m).contains(p) {
                if r.contains(p) {
                    let i = choose|i: int| 0 <= i < m - 1 && reached(tokens, hs, hs.len() as int, i) && hs[i].path@ == p;
                } else {
                    let k = choose|k: int| 0 <= k < closure_upto(tokens, hs, m).len() && closure_upto(tokens, hs, m)[k] == p;
                    assert(k == r.len());
                    assert(reached(tokens, hs, hs.len() as int, m - 1) && hs[m - 1].path@ == p);
                }
            }
            if exists|i: int| 0 <= i < m && reached(tokens, hs, hs.len() as int, i) && hs[i].path@ == p {
                let i = choose|i: int| 0 <= i < m && reached(tokens, hs, hs.len() as int, i) && hs[i].path@ == p;
                if i < m - 1 {
                    assert(r.contains(p));
                    let k = choose|k: int| 0 <= k < r.len() && r[k] == p;
                    assert(closure_upto(tokens, hs, m)[k] == p);
                } else if !r.contains(q) {
                    assert(closure_upto(tokens, hs, m)[r.len() as int] == p);
                } else {
                    let k = choose|k: int| 0 <= k < r.len() && r[k] == p;
                    assert(closure_upto(tokens, hs, m)[k] == p);
                }
            }
        }
    }
}

/// The include closure of a source: `hs.len()` rounds reach every header
/// that can be reached (`lemma_closure_closed`).
pub open spec fn include_closure(tokens: Seq<String>, hs: Seq<Header>) -> Seq<Seq<char>> {
    closure_upto(tokens, hs, hs.len() as int)
}

proof fn lemma_layer_len(tokens: Seq<String>, hs: Seq<Header>, k: int)
    ensures
        layer(tokens, hs, k).len() == hs.len(),
    decreases k,
{
    if k > 0 {
        lemma_layer_len(tokens, hs, k - 1);
    }
}

proof fn lemma_reached_stable(tokens: Seq<String>, hs: Seq<Header>, k: int, m: int)
    requires
        0 <= k <= m,
        layer(tokens, hs, k + 1) == layer(tokens, hs, k),
    ensures
        layer(tokens, hs, m) == layer(tokens, hs, k),
    decreases m - k,
{
    if m > k {
        lemma_reached_stable(tokens, hs, k, m - 1);
    }
}

/// The number of marked entries.
pub open spec fn marked(s: Seq<bool>) -> int
    decreases s.len(),
{
    if s.len() == 0 {
        0
    } else {
        marked(s.drop_last()) + if s.last() {
            1int
        } else {
            0int
        }
    }
}

proof fn lemma_marked_bounds(s: Seq<bool>)
    ensures
        0 <= marked(s) <= s.len(),
    decreases s.len(),
{
    if s.len() > 0 {
        lemma_marked_bounds(s.drop_last());
    }
}

proof fn lemma_marked_grows(a: Seq<bool>, b: Seq<bool>)
    requires
        a.len() == b.len(),
        forall|i: int| 0 <= i < a.len() && a[i] ==> b[i],
    ensures
        marked(a) <= marked(b),
        (exists|i: int| 0 <= i < a.len() && !a[i] && b[i]) ==> marked(a) < marked(b),
    decreases a.len(),
{
    if a.len() > 0 {
        let (da, db) = (a.drop_last(), b.drop_last());
        lemma_marked_grows(da, db);
        if exists|i: int| 0 <= i < a.len() && !a[i] && b[i] {
            let i = choose|i: int| 0 <= i < a.len() && !a[i] && b[i];
            if i < a.len() - 1 {
                assert(!da[i] && db[i]);
            }
        }
    }
}

proof fn lemma_layer_monotone(tokens: Seq<String>, hs: Seq<Header>, k: int)
    requires
        k >= 0,
    ensures
        forall|i: int| 0 <= i < hs.len() && layer(tokens, hs, k)[i] ==> layer(tokens, hs, k + 1)[i],
        layer(tokens, hs, k) != layer(tokens, hs, k + 1) ==> exists|i: int|
            0 <= i < hs.len() && !layer(tokens, hs, k)[i] && layer(tokens, hs, k + 1)[i],
{
    lemma_layer_len(tokens, hs, k);
    lemma_layer_len(tokens, hs, k + 1);
    if !(exists|i: int| 0 <= i < hs.len() && !layer(tokens, hs, k)[i] && layer(tokens, hs, k + 1)[i]) {
        assert(layer(tokens, hs, k) =~= layer(tokens, hs, k + 1));
    }
}

proof fn lemma_layers_count(tokens: Seq<String>, hs: Seq<Header>, k: int)
    requires
        k >= 0,
        forall|m: int| 0 <= m < k ==> #[trigger] layer(tokens, hs, m) != layer(tokens, hs, m + 1),
    ensures
        marked(layer(tokens, hs, k)) >= k,
    decreases k,
{
    lemma_marked_bounds(layer(tokens, hs, k));
    if k > 0 {
        assert((k - 1) + 1 == k);
        lemma_layers_count(tokens, hs, k - 1);
        lemma_layer_monotone(tokens, hs, k - 1);
        lemma_layer_len(tokens, hs, k - 1);
        lemma_layer_len(tokens, hs, k);
        assert(layer(tokens, hs, k - 1) != layer(tokens, hs, k));
        lemma_marked_grows(layer(tokens, hs, k - 1), layer(tokens, hs, k));
    }
}

/// After `hs.len()` rounds nothing more is reached.
proof fn lemma_layers_saturate(tokens: Seq<String>, hs: Seq<Header>)
    ensures
        layer(tokens, hs, hs.len() as int + 1) == layer(tokens, hs, hs.len() as int),
{
    let n = hs.len() as int;
    if exists|m: int| 0 <= m <= n && #[trigger] layer(tokens, hs, m) == layer(tokens, hs, m + 1) {
        let m = choose|m: int| 0 <= m <= n && #[trigger] layer(tokens, hs, m) == layer(tokens, hs, m + 1);
        lemma_reached_stable(tokens, hs, m, n);
        lemma_reached_stable(tokens, hs, m, n + 1);
    } else {
        lemma_layers_count(tokens, hs, n + 1);
        lemma_layer_len(tokens, hs, n + 1);
        lemma_marked_bounds(layer(tokens, hs, n + 1));
    }
}

/// The closure is closed under inclusion: a header that the quoted
/// includes of a reached header name is in the closure too.
pub proof fn lemma_closure_closed(tokens: Seq<String>, hs: Seq<Header>, j: int, i: int)
    requires
        0 <= j < hs.len(),
        0 <= i < hs.len(),
        reached(tokens, hs, hs.len() as int, j),
        matched_by(hs[j].includes@, hs[i].path@),
    ensures
        include_closure(tokens, hs).contains(hs[i].path@),
{
    let n = hs.len() as int;
    lemma_layers_saturate(tokens, hs);
    lemma_layer_len(tokens, hs, n);
    assert(next_layer(hs, layer(tokens, hs, n))[i]);
    assert(reached(tokens, hs, n, i));
    lemma_closure_is_set(tokens, hs, n);
}

/// Whether path `p` ends with the path `tok`, component by component.
pub fn path_ends_with_token(p: &str, tok: &str) -> (r: bool)
    ensures
        r == path_ends_with(p@, tok@),
{
    if same_text(p, tok) {
        return true;
    }
    let n = p.unicode_len();
    let m = tok.unicode_len();
    proof {
        reveal_strlit("/");
    }
    let ghost st = "/"@ + tok@;
    if n <= m {
        return false;
    }
    let r = has_suffix(p, tok) && p.get_char(n - m - 1) == '/';
    assert(r == ends_with_seq(p@, st)) by {
        if ends_with_seq(p@, st) {
            assert(p@.subrange(n - m, n as int) =~= st.subrange(1, m + 1));
            assert(st.subrange(1, m + 1) =~= tok@);
            assert(p@.subrange(n - m - 1, n as int)[0] == '/');
        }
        if r {
            assert(p@.subrange(n - m - 1, n as int) =~= st);
        }
    }
    r
}

fn matched_by_any(tokens: &Vec<String>, p: &str) -> (r: bool)
    ensures
        r == matched_by(tokens@, p@),
{
    let mut t: usize = 0;
    while t < tokens.len()
        invariant
            t <= tokens@.len(),
            forall|k: int| 0 <= k < t ==> !path_ends_with(p@, #[trigger] tokens@[k]@),
        decreases tokens@.len() - t,
    {
        if path_ends_with_token(p, tokens[t].as_str()) {
            return true;
        }
        t = t + 1;
    }
    false
}

/// The include closure of a source whose quoted includes are `tokens`:
/// every header of `headers` that one of them names, and, transitively,
/// every header that an included header's own quoted includes name.
pub fn get_dependant_includes(tokens: &Vec<String>, headers: &Vec<Header>) -> (r: Vec<String>)
    ensures
        views(r@) == include_closure(tokens@, headers@),
        views(r@).no_duplicates(),
        forall|p: Seq<char>| #[trigger] views(r@).contains(p) <==> exists|i: int|
            0 <= i < headers@.len() && reached(tokens@, headers@, headers@.len() as int, i) && headers@[i].path@ == p,
{
    let n = headers.len();
    let ghost hs = headers@;
    // edges[j][i]: header j includes header i
    let mut edges: Vec<Vec<bool>> = Vec::new();
    let mut j: usize = 0;
    while j < n
        invariant
            n == hs.len(),
            hs == headers@,
            j <= n,
            edges@.len() == j,
            forall|a: int| 0 <= a < j ==> (#[trigger] edges@[a])@.len() == n,
            forall|a: int, b: int| 0 <= a < j && 0 <= b < n ==> (#[trigger] edges@[a]@[b]
                == matched_by(hs[a].includes@, hs[b].path@)),
        decreases n - j,
    {
        let mut row: Vec<bool> = Vec::new();
        let mut i: usize = 0;
        while i < n
            invariant
                n == hs.len(),
                hs == headers@,
                j < n,
                i <= n,
                row@.len() == i,
                forall|b: int| 0 <= b < i ==> #[trigger] row@[b] == matched_by(hs[j as int].includes@, hs[b].path@),
            decreases n - i,
        {
            row.push(matched_by_any(&headers[j].includes, headers[i].path.as_str()));
            i = i + 1;
        }
        let ghost old_edges = edges@;
        edges.push(row);
        assert(edges@[j as int] == row);
        assert forall|a: int, b: int| 0 <= a < j + 1 && 0 <= b < n implies (#[trigger] edges@[a]@[b]
            == matched_by(hs[a].includes@, hs[b].path@)) by {
            if a < j {
                assert(edges@[a] == old_edges[a]);
            }
        }
        j = j + 1;
    }
    let mut cur: Vec<bool> = Vec::new();
    let mut i: usize = 0;
    while i < n
        invariant
            n == hs.len(),
            hs == headers@,
            i <= n,
            cur@ == layer(tokens@, hs, 0).subrange(0, i as int),
            edges@.len() == n,
            forall|a: int| 0 <= a < n ==> (#[trigger] edges@[a])@.len() == n,
            forall|a: int, b: int| 0 <= a < n && 0 <= b < n ==> (#[trigger] edges@[a]@[b]
                == matched_by(hs[a].includes@, hs[b].path@)),
        decreases n - i,
    {
        cur.push(matched_by_any(tokens, headers[i].path.as_str()));
        i = i + 1;
        assert(cur@ =~= layer(tokens@, hs, 0).subrange(0, i as int));
    }
    assert(layer(tokens@, hs, 0).subrange(0, n as int) =~= layer(tokens@, hs, 0));
    let mut k: usize = 0;
    let mut stable = false;
    while k < n && !stable
        invariant
            n == hs.len(),
            hs == headers@,
            k <= n,
            edges@.len() == n,
            forall|a: int| 0 <= a < n ==> (#[trigger] edges@[a])@.len() == n,
            forall|a: int, b: int| 0 <= a < n && 0 <= b < n ==> (#[trigger] edges@[a]@[b]
                == matched_by(hs[a].includes@, hs[b].path@)),
            cur@ == layer(tokens@, hs, k as int),
            stable ==> layer(tokens@, hs, k as int) == layer(tokens@, hs, n as int),
        decreases n - k + (if stable { 0int } else { 1int }),
    {
        let ghost nl = layer(tokens@, hs, k + 1);
        assert(nl == next_layer(hs, cur@));
        let mut next: Vec<bool> = Vec::new();
        let mut changed = false;
        let mut i: usize = 0;
        while i < n
            invariant
                n == hs.len(),
                k < n,
                i <= n,
                cur@.len() == n,
                edges@.len() == n,
                forall|a: int| 0 <= a < n ==> (#[trigger] edges@[a])@.len() == n,
                forall|a: int, b: int| 0 <= a < n && 0 <= b < n ==> (#[trigger] edges@[a]@[b]
                    == matched_by(hs[a].includes@, hs[b].path@)),
                nl == next_layer(hs, cur@),
                next@ == nl.subrange(0, i as int),
                !changed ==> next@ == cur@.subrange(0, i as int),
            decreases n - i,
        {
            let mut v = cur[i];
            let mut j: usize = 0;
            while j < n && !v
                invariant
                    n == hs.len(),
                    i < n,
                    j <= n,
                    cur@.len() == n,
                    edges@.len() == n,
                    forall|a: int| 0 <= a < n ==> (#[trigger] edges@[a])@.len() == n,
                    forall|a: int, b: int| 0 <= a < n && 0 <= b < n ==> (#[trigger] edges@[a]@[b]
                        == matched_by(hs[a].includes@, hs[b].path@)),
                    nl == next_layer(hs, cur@),
                    v ==> nl[i as int],
                    !v ==> !cur@[i as int],
                    !v ==> forall|a: int| 0 <= a < j ==> !(cur@[a] && #[trigger] edges@[a]@[i as int]),
                decreases n - j,
            {
                if cur[j] && edges[j][i] {
                    v = true;
                    assert(edges@[j as int]@[i as int]);
                    assert(cur@[j as int] && matched_by(hs[j as int].includes@, hs[i as int].path@));
                }
                j = j + 1;
            }
            proof {
                if !v {
                    assert forall|a: int| 0 <= a < n implies !(#[trigger] cur@[a] && matched_by(
                        hs[a].includes@,
                        hs[i as int].path@,
                    )) by {
                        assert(edges@[a]@[i as int] == matched_by(hs[a].includes@, hs[i as int].path@));
                    }
                }
            }
            if v != cur[i] {
                changed = true;
            }
            next.push(v);
            i = i + 1;
            assert(next@ =~= nl.subrange(0, i as int));
            assert(!changed ==> next@ =~= cur@.subrange(0, i as int));
        }
        assert(nl.subrange(0, n as int) =~= nl);
        assert(!changed ==> cur@.subrange(0, n as int) =~= cur@);
        if !changed {
            proof {
                lemma_reached_stable(tokens@, hs, k as int, n as int);
            }
            stable = true;
        } else {
            cur = next;
            k = k + 1;
        }
    }
    proof {
        if !stable {
            assert(k == n);
        }
        lemma_layer_len(tokens@, hs, n as int);
    }
    let mut r: Vec<String> = Vec::new();
    let mut i: usize = 0;
    while i < n
        invariant
            n == hs.len(),
            hs == headers@,
            i <= n,
            cur@ == layer(tokens@, hs, n as int),
            cur@.len() == n,
            views(r@) == closure_upto(tokens@, hs, i as int),
        decreases n - i,
    {
        if cur[i] && !text_in(&r, headers[i].path.as_str()) {
            let p = headers[i].path.clone();
            proof {
                lemma_views_push(r@, p);
            }
            r.push(p);
        } else {
            proof {
                if cur@[i as int] {
                    let k = choose|k: int| 0 <= k < r@.len() && r@[k]@ == headers@[i as int].path@;
                    assert(views(r@)[k] == headers@[i as int].path@);
                }
            }
        }
        i = i + 1;
    }
    proof {
        lemma_closure_is_set(tokens@, hs, n as int);
    }
    r
}

} // verus!
