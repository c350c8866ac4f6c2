//! The paginated notification fetcher.
//!
//! The fetcher walks a chain of pages, one HTTP request per page boundary,
//! and yields one notification record per step. It owns the pagination
//! cursor: after each page the first `Link:` response header that carries a
//! `next` relation supplies the next page's URL, and an empty cursor is the
//! no-more-pages sentinel. The fetcher itself performs no I/O: [`Notifications::step`]
//! says what to do next, and a fetched page is handed back through
//! [`Notifications::supply_page`].

use vstd::prelude::*;
use vstd::string::*;

use crate::json::{json_as_array, json_as_str, json_elems, json_field_of, json_get, json_is_array,
    json_str_of};
use crate::links::{parse_links_header, spec_parse_links};
use crate::BlockError;

verus! {

/// One notification record: its reason code, an open set of short strings.
pub struct Notification {
    pub reason: String,
}

/// What a caller driving the fetcher is to do next.
pub enum Step {
    /// One record, drained from the current page's buffer.
    Ready(Notification),
    /// The walk is over: no buffered record and no next page.
    Done,
    /// Issue a GET for the first field's URL with the second field as the
    /// `Authorization` header value, and hand the response back through
    /// [`Notifications::supply_page`].
    NeedsPage(String, String),
}

/// The string content of an element's `reason` field, when the element is
/// an object whose `reason` field is a string.
pub open spec fn reason_of_elem(v: serde_json::Value) -> Option<Seq<char>> {
    match json_field_of(v, "reason"@) {
        Some(f) => json_str_of(f),
        None => None,
    }
}

/// The reasons of a page body's elements, in order, when every element has
/// a string `reason` field; `None` as soon as one lacks it.
pub open spec fn page_reasons(elems: Seq<serde_json::Value>) -> Option<Seq<Seq<char>>>
    decreases elems.len(),
{
    if elems.len() == 0 {
        Some(Seq::empty())
    } else {
        match (page_reasons(elems.drop_last()), reason_of_elem(elems.last())) {
            (Some(rs), Some(r)) => Some(rs.push(r)),
            _ => None,
        }
    }
}

/// The views of a header list's lines.
pub open spec fn header_views(hs: Seq<String>) -> Seq<Seq<char>> {
    hs.map_values(|h: String| h@)
}

/// A raw header line that begins with the literal `Link:`.
pub open spec fn is_link_header(h: Seq<char>) -> bool {
    h.len() >= 5 && h[0] == 'L' && h[1] == 'i' && h[2] == 'n' && h[3] == 'k' && h[4] == ':'
}

/// The next page's URL according to a response's headers: the `next`
/// relation of the first `Link:` line whose parse carries one, or the empty
/// sentinel when none does.
pub open spec fn next_cursor_of(hs: Seq<Seq<char>>) -> Seq<char>
    decreases hs.len(),
{
    if hs.len() == 0 {
        Seq::empty()
    } else if is_link_header(hs[0]) && spec_parse_links(hs[0]).contains_key("next"@) {
        spec_parse_links(hs[0])["next"@]
    } else {
        next_cursor_of(hs.drop_first())
    }
}

/// Decides whether a header line begins with `Link:`.
fn starts_with_link(h: &str) -> (b: bool)
    ensures
        b == is_link_header(h@),
{
    let n = h.unicode_len();
    if n < 5 {
        return false;
    }
    h.get_char(0) == 'L' && h.get_char(1) == 'i' && h.get_char(2) == 'n' && h.get_char(3) == 'k'
        && h.get_char(4) == ':'
}

/// Scans a response's headers for the next page's URL.
fn find_next_cursor(headers: &Vec<String>) -> (r: String)
    ensures
        r@ == next_cursor_of(header_views(headers@)),
{
    let ghost hs = header_views(headers@);
    let mut idx: usize = 0;
    proof {
        assert(hs.skip(0) =~= hs);
    }
    while idx < headers.len()
        invariant
            idx <= headers.len(),
            hs == header_views(headers@),
            next_cursor_of(hs) == next_cursor_of(hs.skip(idx as int)),
        decreases headers.len() - idx,
    {
        let h = &headers[idx];
        proof {
            assert(hs.skip(idx as int)[0] == h@);
        }
        if starts_with_link(h.as_str()) {
            let lm = parse_links_header(h.as_str());
            match lm.get("next") {
                Some(u) => {
                    proof {
                        assert(next_cursor_of(hs.skip(idx as int)) == spec_parse_links(h@)[
                            "next"@]);
                    }
                    return u;
                },
                None => {},
            }
        }
        proof {
            assert(hs.skip(idx as int).drop_first() =~= hs.skip(idx as int + 1));
            assert(next_cursor_of(hs.skip(idx as int)) == next_cursor_of(hs.skip(idx as int + 1)));
        }
        idx = idx + 1;
    }
    proof {
        assert(hs.skip(idx as int).len() == 0);
        assert(next_cursor_of(hs.skip(idx as int)) =~= Seq::<char>::empty());
    }
    String::new()
}

/// Decodes a page body into its records: the body must be a JSON array and
/// every element must carry a string `reason` field; anything else is a
/// decode failure for the whole page.
pub fn decode_page(body: &serde_json::Value) -> (r: Result<Vec<Notification>, BlockError>)
    ensures
        match r {
            Ok(recs) => json_is_array(*body) && page_reasons(json_elems(*body)) == Some(
                recs@.map_values(|n: Notification| n.reason@),
            ),
            Err(e) => e == BlockError::DecodeError && (!json_is_array(*body) || page_reasons(
                json_elems(*body),
            ) is None),
        },
{
    let elems = match json_as_array(body) {
        Some(a) => a,
        None => {
            return Err(BlockError::DecodeError);
        },
    };
    let ghost es = json_elems(*body);
    let mut recs: Vec<Notification> = Vec::new();
    let mut i: usize = 0;
    proof {
        assert(recs@.map_values(|n: Notification| n.reason@) =~= Seq::<Seq<char>>::empty());
        assert(es.take(0) =~= Seq::<serde_json::Value>::empty());
    }
    while i < elems.len()
        invariant
            i <= elems.len(),
            elems@ == es,
            es == json_elems(*body),
            page_reasons(es.take(i as int)) == Some(
                recs@.map_values(|n: Notification| n.reason@),
            ),
        decreases elems.len() - i,
    {
        let reason = match json_get(&elems[i], "reason") {
            Some(f) => match json_as_str(f) {
                Some(s) => String::from_str(s),
                None => {
                    proof {
                        assert(reason_of_elem(es[i as int]) is None);
                        lemma_page_reasons_none(es, i as int);
                    }
                    return Err(BlockError::DecodeError);
                },
            },
            None => {
                proof {
                    assert(reason_of_elem(es[i as int]) is None);
                    lemma_page_reasons_none(es, i as int);
                }
                return Err(BlockError::DecodeError);
            },
        };
        proof {
            let before = recs@.map_values(|n: Notification| n.reason@);
            assert(es.take(i as int + 1).drop_last() =~= es.take(i as int));
            assert(es.take(i as int + 1).last() == es[i as int]);
            assert(reason_of_elem(es[i as int]) == Some(reason@));
            assert(page_reasons(es.take(i as int + 1)) == Some(before.push(reason@)));
        }
        recs.push(Notification { reason });
        proof {
            assert(recs@.map_values(|n: Notification| n.reason@) =~= recs@.drop_last().map_values(
                |n: Notification| n.reason@,
            ).push(recs@.last().reason@));
        }
        i = i + 1;
    }
    proof {
        assert(es.take(i as int) =~= es);
    }
    Ok(recs)
}

/// A page with one element that lacks a string `reason` field decodes to
/// nothing.
proof fn lemma_page_reasons_none(es: Seq<serde_json::Value>, i: int)
    requires
        0 <= i < es.len(),
        reason_of_elem(es[i]) is None,
    ensures
        page_reasons(es) is None,
    decreases es.len(),
{
    if es.len() > 0 {
        if i < es.len() - 1 {
            assert(es.drop_last()[i] == es[i]);
            lemma_page_reasons_none(es.drop_last(), i);
        }
    }
}

/// The paginated fetcher: a buffer of records drained from the current
/// page, the bearer credential, and the pagination cursor.
pub struct Notifications {
    buffer: Vec<Notification>,
    token: String,
    next_page_url: String,
}

impl Notifications {
    /// The reasons still buffered from the current page, in yield order.
    pub closed spec fn buffered(&self) -> Seq<Seq<char>> {
        self.buffer@.map_values(|n: Notification| n.reason@)
    }

    /// The pagination cursor; empty is the no-more-pages sentinel.
    pub closed spec fn cursor(&self) -> Seq<char> {
        self.next_page_url@
    }

    /// The bearer credential every request carries.
    pub closed spec fn credential(&self) -> Seq<char> {
        self.token@
    }

    /// The walk is over: nothing buffered and no next page.
    pub open spec fn is_exhausted(&self) -> bool {
        self.buffered().len() == 0 && self.cursor().len() == 0
    }

    /// A page request is pending: nothing buffered but a next page known.
    pub open spec fn is_fetching(&self) -> bool {
        self.buffered().len() == 0 && self.cursor().len() > 0
    }

    /// A fresh walk: cursor at `<api_server>/notifications`, nothing
    /// buffered yet.
    pub fn new(api_server: &str, token: &str) -> (r: Notifications)
        ensures
            r.buffered() == Seq::<Seq<char>>::empty(),
            r.cursor() == api_server@ + "/notifications"@,
            r.credential() == token@,
    {
        let r = Notifications {
            buffer: Vec::new(),
            token: String::from_str(token),
            next_page_url: String::from_str(api_server).concat("/notifications"),
        };
        proof {
            assert(r.buffered() =~= Seq::<Seq<char>>::empty());
        }
        r
    }

    /// Whether the caller must fetch a page before the next record can be
    /// yielded.
    pub fn needs_page(&self) -> (b: bool)
        ensures
            b == self.is_fetching(),
    {
        self.buffer.len() == 0 && !self.next_page_url.as_str().is_empty()
    }

    /// One step of the walk. Yields the next buffered record if one is
    /// left; otherwise either reports exhaustion — never a request — or
    /// names the page request to issue. Exhaustion is stable: once the
    /// buffer is empty and the cursor is the sentinel, every further step
    /// returns `Done` and changes nothing.
    pub fn step(&mut self) -> (r: Step)
        ensures
            final(self).credential() == old(self).credential(),
            old(self).buffered().len() > 0 ==> match r {
                Step::Ready(n) => {
                    &&& n.reason@ == old(self).buffered()[0]
                    &&& final(self).buffered() == old(self).buffered().drop_first()
                    &&& final(self).cursor() == old(self).cursor()
                },
                _ => false,
            },
            old(self).is_exhausted() ==> r is Done && *final(self) == *old(self),
            old(self).is_fetching() ==> match r {
                Step::NeedsPage(url, auth) => {
                    &&& url@ == old(self).cursor()
                    &&& auth@ == "Bearer "@ + old(self).credential()
                    &&& *final(self) == *old(self)
                },
                _ => false,
            },
    {
        if self.buffer.len() > 0 {
            let n = self.buffer.remove(0);
            proof {
                assert(final(self).buffered() =~= old(self).buffered().drop_first());
                assert(n.reason@ == old(self).buffered()[0]);
            }
            Step::Ready(n)
        } else if self.next_page_url.as_str().is_empty() {
            Step::Done
        } else {
            Step::NeedsPage(
                self.next_page_url.clone(),
                String::from_str("Bearer ").concat(self.token.as_str()),
            )
        }
    }

    /// Installs one fetched page. The cursor always moves to what the
    /// response's headers say — the `next` relation of the first `Link:`
    /// line that carries one, or the sentinel — and the decoded records
    /// fill the buffer. A body that does not decode leaves the buffer empty
    /// and reports the failure, the cursor having moved all the same.
    pub fn supply_page(&mut self, headers: &Vec<String>, body: &serde_json::Value) -> (r: Result<
        (),
        BlockError,
    >)
        requires
            old(self).is_fetching(),
        ensures
            final(self).credential() == old(self).credential(),
            final(self).cursor() == next_cursor_of(header_views(headers@)),
            match r {
                Ok(()) => json_is_array(*body) && page_reasons(json_elems(*body)) == Some(
                    final(self).buffered(),
                ),
                Err(e) => {
                    &&& e == BlockError::DecodeError
                    &&& (!json_is_array(*body) || page_reasons(json_elems(*body)) is None)
                    &&& final(self).buffered() == old(self).buffered()
                },
            },
    {
        self.next_page_url = find_next_cursor(headers);
        match decode_page(body) {
            Ok(recs) => {
                proof {
                    assert(recs@.map_values(|n: Notification| n.reason@) == page_reasons(
                        json_elems(*body),
                    )->Some_0);
                }
                self.buffer = recs;
                Ok(())
            },
            Err(e) => Err(e),
        }
    }
}

} // verus!
