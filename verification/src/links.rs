//! Parsing of `Link`-style pagination headers.
//!
//! A raw header line such as
//! `Link: <https://host/a?page=2>; rel="next", <https://host/a?page=4>; rel="last"`
//! is scanned left to right for entries of the shape
//! `<URL>; rel="NAME` where the URL starts with `http://` or `https://` and
//! contains neither whitespace nor `>`, and the relation name is a run of
//! word characters. Conforming entries are folded into a relation-to-URL
//! mapping in which a later entry overwrites an earlier one with the same
//! relation name; anything that does not conform is skipped without
//! aborting the scan.

use vstd::prelude::*;
use vstd::string::*;

verus! {

/// Whitespace characters that may not occur inside a URL.
pub open spec fn is_space_char(c: char) -> bool {
    c == ' ' || c == '\t' || c == '\n' || c == '\r' || c == '\u{b}' || c == '\u{c}'
}

/// Word characters: ASCII letters, digits and underscore.
pub open spec fn is_word_char(c: char) -> bool {
    let u = c as u32;
    (97 <= u && u <= 122) || (65 <= u && u <= 90) || (48 <= u && u <= 57) || u == 95
}

/// Characters allowed inside the angle-bracketed URL of an entry.
pub open spec fn is_url_char(c: char) -> bool {
    !(c == '>' || is_space_char(c))
}

/// Length of the maximal run of URL characters starting at position `i`.
pub open spec fn url_run(s: Seq<char>, i: int) -> nat
    decreases s.len() - i,
    when i <= s.len()
{
    if i < 0 || i >= s.len() {
        0
    } else if !is_url_char(s[i]) {
        0
    } else {
        (url_run(s, i + 1) + 1) as nat
    }
}

/// Length of the maximal run of word characters starting at position `i`.
pub open spec fn word_run(s: Seq<char>, i: int) -> nat
    decreases s.len() - i,
    when i <= s.len()
{
    if i < 0 || i >= s.len() {
        0
    } else if !is_word_char(s[i]) {
        0
    } else {
        (word_run(s, i + 1) + 1) as nat
    }
}

/// An entry's opening `<` followed by `http://` or `https://` at position `i`.
pub open spec fn scheme_at(s: Seq<char>, i: int) -> bool {
    &&& 0 <= i
    &&& i + 8 <= s.len()
    &&& s[i] == '<'
    &&& s[i + 1] == 'h'
    &&& s[i + 2] == 't'
    &&& s[i + 3] == 't'
    &&& s[i + 4] == 'p'
    &&& {
        ||| (s[i + 5] == ':' && s[i + 6] == '/' && s[i + 7] == '/')
        ||| (i + 9 <= s.len() && s[i + 5] == 's' && s[i + 6] == ':' && s[i + 7] == '/' && s[i
            + 8] == '/')
    }
}

/// Position right after the `://` of the scheme of an entry at `i`.
pub open spec fn body_start(s: Seq<char>, i: int) -> int {
    if s[i + 5] == 's' {
        i + 9
    } else {
        i + 8
    }
}

/// Position of the first character after the URL of an entry at `i`.
pub open spec fn url_stop(s: Seq<char>, i: int) -> int {
    body_start(s, i) + url_run(s, body_start(s, i))
}

/// A complete entry `<URL>; rel="NAME` begins at position `i`.
pub open spec fn entry_at(s: Seq<char>, i: int) -> bool {
    &&& scheme_at(s, i)
    &&& {
        let k = url_stop(s, i);
        &&& url_run(s, body_start(s, i)) >= 1
        &&& k < s.len()
        &&& s[k] == '>'
        &&& k + 8 < s.len()
        &&& s[k + 1] == ';'
        &&& s[k + 2] == ' '
        &&& s[k + 3] == 'r'
        &&& s[k + 4] == 'e'
        &&& s[k + 5] == 'l'
        &&& s[k + 6] == '='
        &&& s[k + 7] == '"'
        &&& word_run(s, k + 8) >= 1
    }
}

/// The relation name of the entry at `i`.
pub open spec fn entry_rel(s: Seq<char>, i: int) -> Seq<char> {
    let k = url_stop(s, i);
    s.subrange(k + 8, k + 8 + word_run(s, k + 8))
}

/// The URL of the entry at `i`, scheme included.
pub open spec fn entry_url(s: Seq<char>, i: int) -> Seq<char> {
    s.subrange(i + 1, url_stop(s, i))
}

/// Position right after the entry at `i`.
pub open spec fn entry_end(s: Seq<char>, i: int) -> int {
    let k = url_stop(s, i);
    k + 8 + word_run(s, k + 8)
}

/// A run of URL characters never runs past the end of the string.
pub proof fn lemma_url_run_bound(s: Seq<char>, i: int)
    requires
        i <= s.len(),
    ensures
        i <= i + url_run(s, i) <= s.len() || i < 0,
    decreases s.len() - i,
{
    if 0 <= i < s.len() && is_url_char(s[i]) {
        lemma_url_run_bound(s, i + 1);
    }
}

/// A run of word characters never runs past the end of the string.
pub proof fn lemma_word_run_bound(s: Seq<char>, i: int)
    requires
        i <= s.len(),
    ensures
        i <= i + word_run(s, i) <= s.len() || i < 0,
    decreases s.len() - i,
{
    if 0 <= i < s.len() && is_word_char(s[i]) {
        lemma_word_run_bound(s, i + 1);
    }
}

/// The `(relation, URL)` pairs of all entries at or after position `i`, in
/// the order in which they occur.
pub open spec fn entries_from(s: Seq<char>, i: int) -> Seq<(Seq<char>, Seq<char>)>
    decreases s.len() - i,
    when 0 <= i <= s.len()
    via entries_from_decreases
{
    if i >= s.len() {
        Seq::empty()
    } else if entry_at(s, i) {
        seq![(entry_rel(s, i), entry_url(s, i))] + entries_from(s, entry_end(s, i))
    } else {
        entries_from(s, i + 1)
    }
}

#[via_fn]
proof fn entries_from_decreases(s: Seq<char>, i: int) {
    if 0 <= i < s.len() && entry_at(s, i) {
        lemma_url_run_bound(s, body_start(s, i));
        lemma_word_run_bound(s, url_stop(s, i) + 8);
    }
}

/// Folds a sequence of `(relation, URL)` pairs into a map, later pairs
/// overwriting earlier ones with the same relation name.
pub open spec fn links_of(es: Seq<(Seq<char>, Seq<char>)>) -> Map<Seq<char>, Seq<char>>
    decreases es.len(),
{
    if es.len() == 0 {
        Map::empty()
    } else {
        links_of(es.drop_last()).insert(es.last().0, es.last().1)
    }
}

/// The relation-to-URL mapping that parsing a raw header line yields.
pub open spec fn spec_parse_links(s: Seq<char>) -> Map<Seq<char>, Seq<char>> {
    links_of(entries_from(s, 0))
}

/// Within one header the relation-to-URL mapping holds exactly the relation
/// names that occur among the entries, and maps each to the URL of its last
/// occurrence: earlier duplicates are overwritten, and an entry not shadowed
/// by a later duplicate keeps its URL regardless of where it stands.
pub proof fn lemma_last_occurrence_wins(es: Seq<(Seq<char>, Seq<char>)>, k: Seq<char>)
    ensures
        links_of(es).contains_key(k) <==> (exists|i: int| 0 <= i < es.len() && es[i].0 == k),
        forall|i: int|
            0 <= i < es.len() && es[i].0 == k && (forall|j: int|
                i < j < es.len() ==> es[j].0 != k) ==> links_of(es)[k] == es[i].1,
    decreases es.len(),
{
    if es.len() > 0 {
        let dl = es.drop_last();
        let last = es.last();
        lemma_last_occurrence_wins(dl, k);
        assert(links_of(es) == links_of(dl).insert(last.0, last.1));
        if links_of(es).contains_key(k) {
            if k == last.0 {
                assert(es[es.len() - 1].0 == k);
            } else {
                let i = choose|i: int| 0 <= i < dl.len() && dl[i].0 == k;
                assert(es[i].0 == k);
            }
        }
        if exists|i: int| 0 <= i < es.len() && es[i].0 == k {
            let i = choose|i: int| 0 <= i < es.len() && es[i].0 == k;
            if i < es.len() - 1 {
                assert(dl[i].0 == k);
            }
            assert(links_of(es).contains_key(k));
        }
    }
    assert forall|i: int|
        0 <= i < es.len() && es[i].0 == k && (forall|j: int|
            i < j < es.len() ==> es[j].0 != k) implies links_of(es)[k] == es[i].1 by {
        lemma_links_of_at(es, i);
    }
}

/// Within one raw header a relation name is present exactly when some
/// entry carries it, wherever that entry stands in the line; and on
/// duplicate relation names the last entry's URL wins.
pub proof fn lemma_parse_links_last_wins(s: Seq<char>, k: Seq<char>)
    ensures
        spec_parse_links(s).contains_key(k) <==> (exists|i: int|
            0 <= i < entries_from(s, 0).len() && entries_from(s, 0)[i].0 == k),
        forall|i: int|
            0 <= i < entries_from(s, 0).len() && entries_from(s, 0)[i].0 == k && (forall|j: int|
                i < j < entries_from(s, 0).len() ==> entries_from(s, 0)[j].0 != k)
                ==> spec_parse_links(s)[k] == entries_from(s, 0)[i].1,
{
    lemma_last_occurrence_wins(entries_from(s, 0), k);
}

/// A pair whose relation name no later pair carries supplies the mapping's
/// URL for that name.
pub proof fn lemma_links_of_at(es: Seq<(Seq<char>, Seq<char>)>, i: int)
    requires
        0 <= i < es.len(),
        forall|j: int| i < j < es.len() ==> es[j].0 != es[i].0,
    ensures
        links_of(es).contains_key(es[i].0),
        links_of(es)[es[i].0] == es[i].1,
    decreases es.len(),
{
    if i == es.len() - 1 {
    } else {
        let dl = es.drop_last();
        assert(dl[i] == es[i]);
        assert forall|j: int| i < j < dl.len() implies dl[j].0 != es[i].0 by {
            assert(dl[j] == es[j]);
        }
        lemma_links_of_at(dl, i);
        assert(es[es.len() - 1].0 != es[i].0);
    }
}

/// Decides `is_url_char` on one character.
fn ch_is_url(c: char) -> (b: bool)
    ensures
        b == is_url_char(c),
{
    !(c == '>' || c == ' ' || c == '\t' || c == '\n' || c == '\r' || c == '\u{b}' || c == '\u{c}')
}

/// Decides `is_word_char` on one character.
fn ch_is_word(c: char) -> (b: bool)
    ensures
        b == is_word_char(c),
{
    let u = c as u32;
    (97 <= u && u <= 122) || (65 <= u && u <= 90) || (48 <= u && u <= 57) || u == 95
}

/// The views of an association list's pairs.
pub open spec fn pair_views(ps: Seq<(String, String)>) -> Seq<(Seq<char>, Seq<char>)> {
    ps.map_values(|p: (String, String)| (p.0@, p.1@))
}

/// A relation-to-URL mapping, produced by [`parse_links_header`].
///
/// Stored as the parsed entries in occurrence order; lookups honour the
/// later-entry-wins rule, so the type abstracts to a finite map.
pub struct LinkMap {
    pairs: Vec<(String, String)>,
}

impl View for LinkMap {
    type V = Map<Seq<char>, Seq<char>>;

    closed spec fn view(&self) -> Map<Seq<char>, Seq<char>> {
        links_of(pair_views(self.pairs@))
    }
}

impl LinkMap {
    /// The empty mapping.
    pub fn new() -> (r: LinkMap)
        ensures
            r@ == Map::<Seq<char>, Seq<char>>::empty(),
    {
        let r = LinkMap { pairs: Vec::new() };
        proof {
            assert(pair_views(r.pairs@) =~= Seq::<(Seq<char>, Seq<char>)>::empty());
        }
        r
    }

    /// Records one `(relation, URL)` pair, overwriting the URL of an earlier
    /// pair with the same relation name.
    fn push_pair(&mut self, rel: String, url: String)
        ensures
            final(self)@ == old(self)@.insert(rel@, url@),
    {
        let ghost before = pair_views(self.pairs@);
        self.pairs.push((rel, url));
        proof {
            let after = pair_views(self.pairs@);
            assert(after.len() == before.len() + 1);
            assert(after.drop_last() =~= before);
            assert(after.last() == (rel@, url@));
        }
    }

    /// Looks a relation name up, returning the URL of the last entry that
    /// carries it.
    pub fn get(&self, rel: &str) -> (r: Option<String>)
        ensures
            match r {
                Some(u) => self@.contains_key(rel@) && u@ == self@[rel@],
                None => !self@.contains_key(rel@),
            },
    {
        proof {
            lemma_last_occurrence_wins(pair_views(self.pairs@), rel@);
        }
        let key = String::from_str(rel);
        let mut j: usize = self.pairs.len();
        while j > 0
            invariant
                j <= self.pairs.len(),
                key@ == rel@,
                forall|jj: int|
                    j <= jj < self.pairs.len() ==> pair_views(self.pairs@)[jj].0 != rel@,
            decreases j,
        {
            j = j - 1;
            if self.pairs[j].0 == key {
                proof {
                    let es = pair_views(self.pairs@);
                    assert(es[j as int].0 == rel@);
                    lemma_links_of_at(es, j as int);
                }
                return Some(self.pairs[j].1.clone());
            }
            proof {
                assert(pair_views(self.pairs@)[j as int].0 != rel@);
            }
        }
        None
    }
}

/// A well-formed URL: it starts with `http://` or `https://` and contains
/// neither whitespace nor `>`.
pub open spec fn wf_url(u: Seq<char>) -> bool {
    &&& (forall|j: int| 0 <= j < u.len() ==> is_url_char(u[j]))
    &&& {
        ||| (u.len() >= 8 && u[0] == 'h' && u[1] == 't' && u[2] == 't' && u[3] == 'p' && u[4]
            == ':' && u[5] == '/' && u[6] == '/')
        ||| (u.len() >= 9 && u[0] == 'h' && u[1] == 't' && u[2] == 't' && u[3] == 'p' && u[4]
            == 's' && u[5] == ':' && u[6] == '/' && u[7] == '/')
    }
}

/// A well-formed relation name: a nonempty run of word characters.
pub open spec fn wf_rel(r: Seq<char>) -> bool {
    r.len() >= 1 && (forall|j: int| 0 <= j < r.len() ==> is_word_char(r[j]))
}

/// Every character inside a URL run is a URL character.
pub proof fn lemma_url_run_chars(s: Seq<char>, i: int)
    requires
        0 <= i <= s.len(),
    ensures
        forall|j: int| i <= j < i + url_run(s, i) ==> is_url_char(s[j]),
    decreases s.len() - i,
{
    if i < s.len() && is_url_char(s[i]) {
        lemma_url_run_chars(s, i + 1);
    }
}

/// Every character inside a word run is a word character.
pub proof fn lemma_word_run_chars(s: Seq<char>, i: int)
    requires
        0 <= i <= s.len(),
    ensures
        forall|j: int| i <= j < i + word_run(s, i) ==> is_word_char(s[j]),
    decreases s.len() - i,
{
    if i < s.len() && is_word_char(s[i]) {
        lemma_word_run_chars(s, i + 1);
    }
}

/// Every entry the scan recognises carries a well-formed relation name and a
/// well-formed URL.
pub proof fn lemma_entries_wf(s: Seq<char>, i: int)
    requires
        0 <= i <= s.len(),
    ensures
        forall|j: int|
            0 <= j < entries_from(s, i).len() ==> wf_rel(entries_from(s, i)[j].0) && wf_url(
                entries_from(s, i)[j].1),
    decreases s.len() - i,
{
    if i >= s.len() {
    } else if entry_at(s, i) {
        let b = body_start(s, i);
        let k = url_stop(s, i);
        let m = entry_end(s, i);
        lemma_url_run_bound(s, b);
        lemma_word_run_bound(s, k + 8);
        lemma_url_run_chars(s, b);
        lemma_word_run_chars(s, k + 8);
        let rel = entry_rel(s, i);
        let url = entry_url(s, i);
        assert(forall|j: int| 0 <= j < rel.len() ==> rel[j] == s[k + 8 + j]);
        assert(wf_rel(rel));
        assert(forall|j: int| 0 <= j < url.len() ==> url[j] == s[i + 1 + j]);
        assert(forall|j: int| b <= j < k ==> is_url_char(s[j]));
        assert(url[0] == 'h' && url[1] == 't' && url[2] == 't' && url[3] == 'p');
        assert(wf_url(url));
        lemma_entries_wf(s, m);
        assert(entries_from(s, i) == seq![(rel, url)] + entries_from(s, m));
        assert(forall|j: int|
            1 <= j < entries_from(s, i).len() ==> entries_from(s, i)[j] == entries_from(s, m)[j
                - 1]);
    } else {
        lemma_entries_wf(s, i + 1);
        assert(entries_from(s, i) == entries_from(s, i + 1));
    }
}

/// A position where no entry begins contributes nothing: the scan moves on
/// and the rest of the header still parses.
pub proof fn lemma_nonentry_skipped(s: Seq<char>, i: int)
    requires
        0 <= i < s.len(),
        !entry_at(s, i),
    ensures
        entries_from(s, i) == entries_from(s, i + 1),
{
}

/// Only conforming entries reach the mapping: every relation name in the
/// parse of a raw header is a nonempty run of word characters, and every URL
/// starts with `http://` or `https://` and holds neither whitespace nor `>`.
/// A malformed entry is dropped and contributes nothing.
pub proof fn lemma_parsed_links_wellformed(s: Seq<char>)
    ensures
        forall|k: Seq<char>| #[trigger]
            spec_parse_links(s).contains_key(k) ==> wf_rel(k) && wf_url(spec_parse_links(s)[k]),
{
    lemma_entries_wf(s, 0);
    let es = entries_from(s, 0);
    assert forall|k: Seq<char>| #[trigger]
        spec_parse_links(s).contains_key(k) implies wf_rel(k) && wf_url(
        spec_parse_links(s)[k]) by {
        lemma_last_occurrence_wins(es, k);
        let i = choose|i: int| 0 <= i < es.len() && es[i].0 == k;
        lemma_last_index_same_key(es, i);
    }
}

/// For any index whose key occurs in an entry sequence there is a last index
/// with that key, and the fold maps the key to that index's URL.
proof fn lemma_last_index_same_key(es: Seq<(Seq<char>, Seq<char>)>, i: int)
    requires
        0 <= i < es.len(),
    ensures
        exists|l: int|
            0 <= l < es.len() && es[l].0 == es[i].0 && (forall|j: int|
                l < j < es.len() ==> es[j].0 != es[l].0) && links_of(es)[es[i].0] == es[l].1,
    decreases es.len() - i,
{
    if forall|j: int| i < j < es.len() ==> es[j].0 != es[i].0 {
        lemma_links_of_at(es, i);
    } else {
        let j = choose|j: int| i < j < es.len() && es[j].0 == es[i].0;
        lemma_last_index_same_key(es, j);
    }
}

/// Attempts to recognise one entry beginning at position `i`, returning its
/// relation name, its URL and the position right after it.
fn try_entry(raw: &str, n: usize, i: usize) -> (r: Option<(String, String, usize)>)
    requires
        raw@.len() == n,
        i < n,
    ensures
        match r {
            None => !entry_at(raw@, i as int),
            Some(p) => {
                &&& entry_at(raw@, i as int)
                &&& p.0@ == entry_rel(raw@, i as int)
                &&& p.1@ == entry_url(raw@, i as int)
                &&& p.2 == entry_end(raw@, i as int)
                &&& i < p.2 <= n
            },
        },
{
    let ghost s = raw@;
    if n - i < 8 {
        return None;
    }
    if raw.get_char(i) != '<' {
        return None;
    }
    if raw.get_char(i + 1) != 'h' || raw.get_char(i + 2) != 't' || raw.get_char(i + 3) != 't'
        || raw.get_char(i + 4) != 'p' {
        return None;
    }
    let c5 = raw.get_char(i + 5);
    let b: usize;
    if c5 == ':' {
        if raw.get_char(i + 6) != '/' || raw.get_char(i + 7) != '/' {
            return None;
        }
        b = i + 8;
    } else if c5 == 's' {
        if n - i < 9 {
            return None;
        }
        if raw.get_char(i + 6) != ':' || raw.get_char(i + 7) != '/' || raw.get_char(i + 8) != '/' {
            return None;
        }
        b = i + 9;
    } else {
        return None;
    }
    assert(scheme_at(s, i as int) && b == body_start(s, i as int));
    let mut k: usize = b;
    while k < n && ch_is_url(raw.get_char(k))
        invariant
            b <= k <= n,
            raw@.len() == n,
            s == raw@,
            url_run(s, b as int) == k - b + url_run(s, k as int),
        decreases n - k,
    {
        k = k + 1;
    }
    assert(url_run(s, k as int) == 0);
    assert(url_stop(s, i as int) == k);
    if k == b {
        return None;
    }
    if k == n {
        return None;
    }
    if raw.get_char(k) != '>' {
        return None;
    }
    if n - k < 9 {
        return None;
    }
    if raw.get_char(k + 1) != ';' || raw.get_char(k + 2) != ' ' || raw.get_char(k + 3) != 'r'
        || raw.get_char(k + 4) != 'e' || raw.get_char(k + 5) != 'l' || raw.get_char(k + 6) != '='
        || raw.get_char(k + 7) != '"' {
        return None;
    }
    let mut m: usize = k + 8;
    while m < n && ch_is_word(raw.get_char(m))
        invariant
            k + 8 <= m <= n,
            raw@.len() == n,
            s == raw@,
            word_run(s, (k + 8) as int) == m - (k + 8) + word_run(s, m as int),
        decreases n - m,
    {
        m = m + 1;
    }
    assert(word_run(s, m as int) == 0);
    if m == k + 8 {
        return None;
    }
    assert(entry_at(s, i as int));
    let url_part = raw.substring_char(i + 1, k);
    let rel_part = raw.substring_char(k + 8, m);
    Some((String::from_str(rel_part), String::from_str(url_part), m))
}

/// Parses one raw header line into its relation-to-URL mapping, skipping
/// whatever does not conform to the entry shape.
pub fn parse_links_header(raw: &str) -> (r: LinkMap)
    ensures
        r@ == spec_parse_links(raw@),
{
    let ghost s = raw@;
    let n = raw.unicode_len();
    let mut lm = LinkMap::new();
    let ghost mut done: Seq<(Seq<char>, Seq<char>)> = Seq::empty();
    let mut i: usize = 0;
    proof {
        assert(entries_from(s, 0) =~= done + entries_from(s, 0));
    }
    while i < n
        invariant
            raw@.len() == n,
            s == raw@,
            i <= n,
            entries_from(s, 0) == done + entries_from(s, i as int),
            lm@ == links_of(done),
        decreases n - i,
    {
        match try_entry(raw, n, i) {
            Some(p) => {
                let (rel_s, url_s, m) = p;
                let ghost e = (entry_rel(s, i as int), entry_url(s, i as int));
                proof {
                    assert(entries_from(s, i as int) == seq![e] + entries_from(s, m as int));
                    assert(done + (seq![e] + entries_from(s, m as int)) =~= done.push(e)
                        + entries_from(s, m as int));
                }
                lm.push_pair(rel_s, url_s);
                proof {
                    let done2 = done.push(e);
                    assert(done2.drop_last() =~= done);
                    assert(done2.last() == e);
                    assert(links_of(done2) == links_of(done).insert(e.0, e.1));
                    done = done2;
                }
                i = m;
            },
            None => {
                proof {
                    assert(entries_from(s, i as int) == entries_from(s, i as int + 1));
                }
                i = i + 1;
            },
        }
    }
    proof {
        assert(entries_from(s, i as int) =~= Seq::<(Seq<char>, Seq<char>)>::empty());
        assert(done + entries_from(s, i as int) =~= done);
    }
    lm
}

} // verus!
