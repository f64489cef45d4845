//! Cursor-following collection of a paginated REST resource.
//!
//! The platform links pages through a `link` response header; the segment
//! ending in `rel="next"` carries the next page's URL between `<` and `>`.
//! The decision logic lives here, verified: the caller performs one fetch
//! per step and feeds the page's items and link header back, and the
//! paginator appends the items in order and decides whether, and where,
//! to fetch next.

use vstd::prelude::*;
use vstd::string::StrSliceExecFns;
use vstd::string::StringExecFns;
use crate::strutil;

verus! {

pub open spec fn rel_next_suffix() -> Seq<char> {
    seq!['r', 'e', 'l', '=', '"', 'n', 'e', 'x', 't', '"']
}

pub open spec fn angle_pred() -> spec_fn(char) -> bool {
    |c: char| c == '<'
}

/// The first position at or after `i` holding `c`.
pub open spec fn find_char_from(s: Seq<char>, c: char, i: int) -> Option<int>
    decreases s.len() - i,
{
    if i < 0 || i >= s.len() {
        None
    } else if s[i] == c {
        Some(i)
    } else {
        find_char_from(s, c, i + 1)
    }
}

/// The URL inside one header segment: what stands after the leading `<`
/// markers and before the first `>`, or nothing when no `>` follows.
pub open spec fn link_url_spec(seg: Seq<char>) -> Option<Seq<char>> {
    let a = strutil::lead_count(seg, angle_pred());
    match find_char_from(seg, '>', a) {
        Some(p) => Some(seg.subrange(a, p)),
        None => None,
    }
}

/// The next page's URL according to a `link` header: the first
/// comma-separated segment ending in `rel="next"`, with its URL cut out;
/// nothing when no such segment (or no URL inside it) exists.
pub open spec fn next_link_spec(h: Seq<char>) -> Option<Seq<char>>
    decreases h.len(),
{
    match find_char_from(h, ',', 0) {
        None => if strutil::ends_with_spec(h, rel_next_suffix()) {
            link_url_spec(h)
        } else {
            None
        },
        Some(cpos) => if 0 <= cpos < h.len() {
            let seg = h.subrange(0, cpos);
            if strutil::ends_with_spec(seg, rel_next_suffix()) {
                link_url_spec(seg)
            } else {
                next_link_spec(h.subrange(cpos + 1, h.len() as int))
            }
        } else {
            None
        },
    }
}

fn find_char(s: &str, c: char, from: usize) -> (r: Option<usize>)
    requires
        from <= s@.len(),
    ensures
        match r {
            Some(p) => find_char_from(s@, c, from as int) == Some(p as int) && from <= p
                < s@.len(),
            None => find_char_from(s@, c, from as int) is None,
        },
{
    let n: usize = s.unicode_len();
    let mut i: usize = from;
    while i < n
        invariant
            from <= i <= n,
            n == s@.len(),
            find_char_from(s@, c, from as int) == find_char_from(s@, c, i as int),
        decreases n - i,
    {
        if s.get_char(i) == c {
            assert(find_char_from(s@, c, i as int) == Some(i as int));
            return Some(i);
        }
        i += 1;
    }
    None
}

fn link_url(seg: &str) -> (r: Option<String>)
    ensures
        match r {
            Some(u) => link_url_spec(seg@) == Some(u@),
            None => link_url_spec(seg@) is None,
        },
{
    let n: usize = seg.unicode_len();
    let mut a: usize = 0;
    while a < n && seg.get_char(a) == '<'
        invariant
            a <= n,
            n == seg@.len(),
            forall|k: int| 0 <= k < a ==> seg@[k] == '<',
        decreases n - a,
    {
        a += 1;
    }
    proof {
        strutil::lemma_lead_count(seg@, angle_pred(), a as int);
    }
    match find_char(seg, '>', a) {
        Some(p) => {
            let u = seg.substring_char(a, p);
            proof {
                assert(u@ =~= seg@.subrange(a as int, p as int));
            }
            Some(String::from_str(u))
        },
        None => None,
    }
}

/// Cuts the next page's URL out of a `link` header, when one is announced.
pub fn next_link(h: &str) -> (r: Option<String>)
    ensures
        match r {
            Some(u) => next_link_spec(h@) == Some(u@),
            None => next_link_spec(h@) is None,
        },
    decreases h@.len(),
{
    proof {
        reveal_strlit("rel=\"next\"");
        assert("rel=\"next\""@ =~= rel_next_suffix());
    }
    let n: usize = h.unicode_len();
    match find_char(h, ',', 0) {
        None => {
            if strutil::str_ends_with(h, "rel=\"next\"") {
                link_url(h)
            } else {
                None
            }
        },
        Some(cpos) => {
            let seg = h.substring_char(0, cpos);
            if strutil::str_ends_with(seg, "rel=\"next\"") {
                link_url(seg)
            } else {
                let rest = h.substring_char(cpos + 1, n);
                next_link(rest)
            }
        },
    }
}

/// The state of one paginated collection run: the items gathered so far,
/// in arrival order, and the URL still to fetch, when any.
pub struct Paginator<T> {
    pub items: Vec<T>,
    pub next_url: Option<String>,
}

impl<T> Paginator<T> {
    /// A fresh run that still has to fetch `start_url`.
    pub fn new(start_url: String) -> (s: Self)
        ensures
            s.items@ == Seq::<T>::empty(),
            s.next_url matches Some(u) && u@ == start_url@,
    {
        Paginator { items: Vec::new(), next_url: Some(start_url) }
    }

    /// The URL to fetch next; nothing when the collection is complete.
    pub fn next_request(&self) -> (r: Option<&String>)
        ensures
            match r {
                Some(u) => self.next_url matches Some(x) && u@ == x@,
                None => self.next_url is None,
            },
    {
        match &self.next_url {
            Some(u) => Some(u),
            None => None,
        }
    }

    /// Whether the collection is complete.
    pub fn is_done(&self) -> (r: bool)
        ensures
            r == (self.next_url is None),
    {
        match &self.next_url {
            Some(u) => false,
            None => true,
        }
    }

    /// Records one fetched page: its items are appended after everything
    /// gathered so far, preserving order within and across pages, and the
    /// page's `link` header (when present) decides the next request; a
    /// missing header or a header without `rel="next"` ends the run.
    pub fn push_page(&mut self, page: Vec<T>, link_header: Option<&str>)
        ensures
            final(self).items@ == old(self).items@ + page@,
            match link_header {
                Some(h) => (match final(self).next_url {
                    Some(u) => next_link_spec(h@) matches Some(x) && u@ == x,
                    None => next_link_spec(h@) is None,
                }),
                None => final(self).next_url is None,
            },
    {
        let mut page = page;
        self.items.append(&mut page);
        match link_header {
            Some(h) => {
                self.next_url = next_link(h);
            },
            None => {
                self.next_url = None;
            },
        }
    }

    /// Hands the gathered items out.
    pub fn into_items(self) -> (r: Vec<T>)
        ensures
            r@ == self.items@,
    {
        let Paginator { items, next_url } = self;
        items
    }
}

} // verus!
