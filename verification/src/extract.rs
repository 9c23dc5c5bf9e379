//! Per-line domain extraction: a trimmed line is either a comment, an
//! absolute URL whose host is taken, or a hosts-file / ad-block style
//! entry whose markers are stripped; the resulting token is accepted only
//! when it looks like a bare domain.

use vstd::prelude::*;
use vstd::string::*;
use crate::text::{
    contains_char, contains_space, ends_with_char, is_space, lemma_trim_back_range,
    lemma_trim_front_range, lemma_trimmed_no_space, starts_with, str_contains_char,
    str_contains_space, str_strip_prefix_all, str_strip_suffix_all, strip_prefix_all,
    strip_suffix_all, trim, trimmed,
};

verus! {

/// The ad-block host marker `||`.
pub open spec fn marker_adblock() -> Seq<char> {
    seq!['|', '|']
}

/// The hosts-file null-route prefix `0.0.0.0 `.
pub open spec fn prefix_zero() -> Seq<char> {
    seq!['0', '.', '0', '.', '0', '.', '0', ' ']
}

/// The hosts-file loopback prefix `127.0.0.1 `.
pub open spec fn prefix_loopback() -> Seq<char> {
    seq!['1', '2', '7', '.', '0', '.', '0', '.', '1', ' ']
}

/// A bare domain: at least one dot, no colon, no slash, no whitespace.
pub open spec fn is_valid_domain(s: Seq<char>) -> bool {
    &&& contains_char(s, '.')
    &&& !contains_char(s, ':')
    &&& !contains_char(s, '/')
    &&& !contains_space(s)
}

/// A valid domain that is also a fixed point of marker stripping, so that
/// rendering it as a hosts-format line and extracting it back returns it
/// unchanged.
pub open spec fn is_canonical_domain(s: Seq<char>) -> bool {
    is_valid_domain(s) && !ends_with_char(s, '^')
}

/// What `url::Url::parse` followed by `Url::host_str` yields on a line:
/// `None` when the line is not an absolute URL, `Some(None)` when it is
/// one without a host, `Some(Some(h))` when it is one with host `h`.
pub uninterp spec fn url_host_of(s: Seq<char>) -> Option<Option<Seq<char>>>;

/// Relies on `url::Url::parse` and `url::Url::host_str` of the url crate:
/// both depend on the input string alone, so their composition is the
/// named function `url_host_of`.
#[verifier::external_body]
fn parse_url_host(line: &str) -> (r: Option<Option<String>>)
    ensures
        match r {
            Option::None => url_host_of(line@) is None,
            Option::Some(Option::None) => url_host_of(line@) == Some(Option::<Seq<char>>::None),
            Option::Some(Option::Some(h)) => url_host_of(line@) == Some(Some(h@)),
        },
{
    match url::Url::parse(line) {
        Ok(u) => Some(u.host_str().map(|h| h.to_string())),
        Err(_) => None,
    }
}

/// The cleaning applied to a trimmed non-URL line: strip leading `||`,
/// then leading `0.0.0.0 `, then leading `127.0.0.1 `, then trailing `^`,
/// then trim again.
pub open spec fn cleaned(t: Seq<char>) -> Seq<char> {
    trimmed(
        strip_suffix_all(
            strip_prefix_all(
                strip_prefix_all(strip_prefix_all(t, marker_adblock()), prefix_zero()),
                prefix_loopback(),
            ),
            '^',
        ),
    )
}

/// The domain extracted from one line of fetched content, if any.
///
/// The line is trimmed; an empty line or a `#` comment yields nothing. A
/// line containing a colon can only be a domain if it is an absolute URL,
/// so it is handed to the URL parser and only a valid host is accepted.
/// Any other line is cleaned of hosts-file and ad-block markers and
/// accepted when the remaining token is a bare domain.
pub open spec fn spec_extract(line: Seq<char>) -> Option<Seq<char>> {
    let t = trimmed(line);
    if t.len() == 0 || t[0] == '#' {
        None
    } else if contains_char(t, ':') {
        match url_host_of(t) {
            Some(Some(h)) => if is_valid_domain(h) {
                Some(h)
            } else {
                None
            },
            _ => None,
        }
    } else {
        let c = cleaned(t);
        if is_valid_domain(c) {
            Some(c)
        } else {
            None
        }
    }
}

/// True when the token is a bare domain.
pub fn domain_ok(s: &str) -> (b: bool)
    ensures
        b == is_valid_domain(s@),
{
    str_contains_char(s, '.') && !str_contains_char(s, ':') && !str_contains_char(s, '/')
        && !str_contains_space(s)
}

/// Strip hosts-file and ad-block markers from a trimmed line.
fn clean_token<'a>(t: &'a str) -> (r: &'a str)
    ensures
        r@ == cleaned(t@),
{
    proof {
        reveal_strlit("||");
        reveal_strlit("0.0.0.0 ");
        reveal_strlit("127.0.0.1 ");
        assert("||"@ =~= marker_adblock());
        assert("0.0.0.0 "@ =~= prefix_zero());
        assert("127.0.0.1 "@ =~= prefix_loopback());
    }
    let a = str_strip_prefix_all(t, "||");
    let b = str_strip_prefix_all(a, "0.0.0.0 ");
    let c = str_strip_prefix_all(b, "127.0.0.1 ");
    let d = str_strip_suffix_all(c, '^');
    trim(d)
}

/// Extract a domain from one line of fetched content.
///
/// Returns exactly what `spec_extract` names, and every extracted domain
/// is a bare domain: it contains a dot and no colon, slash or whitespace.
pub fn extract_domain(line: &str) -> (r: Option<String>)
    ensures
        match r {
            Some(d) => spec_extract(line@) == Some(d@) && is_valid_domain(d@),
            None => spec_extract(line@) is None,
        },
{
    let t = trim(line);
    if t.unicode_len() == 0 {
        return None;
    }
    if t.get_char(0) == '#' {
        return None;
    }
    if str_contains_char(t, ':') {
        match parse_url_host(t) {
            Some(host) => match host {
                Some(h) => {
                    if domain_ok(h.as_str()) {
                        Some(h)
                    } else {
                        None
                    }
                },
                None => None,
            },
            None => None,
        }
    } else {
        let c = clean_token(t);
        if domain_ok(c) {
            Some(String::from_str(c))
        } else {
            None
        }
    }
}

/// Round trip: a canonical domain, rendered as the hosts-format line
/// `0.0.0.0 <domain>`, is extracted back unchanged.
pub proof fn lemma_round_trip_line(d: Seq<char>)
    requires
        is_canonical_domain(d),
    ensures
        spec_extract(prefix_zero() + d) == Some(d),
{
    let line = prefix_zero() + d;
    assert(d.len() > 0);
    assert(forall|i: int| 0 <= i < d.len() ==> line[8 + i] == d[i]);

    // The line holds no colon and no whitespace outside the prefix's space.
    assert(!contains_char(line, ':')) by {
        assert(forall|i: int| 0 <= i < 8 ==> line[i] == prefix_zero()[i]);
        assert(forall|i: int| 8 <= i < line.len() ==> line[i] == d[i - 8]);
    }

    // Trimming leaves the line unchanged: it starts with '0' and ends with
    // the domain's last character, which is not whitespace.
    assert(trimmed(line) == line) by {
        assert(line[0] == '0');
        assert(line[line.len() - 1] == d[d.len() - 1]);
        assert(!is_space(line[line.len() - 1]));
        lemma_trim_front_range(line, 0);
        assert(line.skip(0) =~= line);
        lemma_trim_back_range(line, line.len() as int);
        assert(line.take(line.len() as int) =~= line);
    }

    assert(line.len() > 0 && line[0] != '#');

    // Cleaning the line yields exactly the domain.
    assert(cleaned(line) == d) by {
        // No leading ad-block marker: the line starts with '0'.
        assert(!starts_with(line, marker_adblock())) by {
            if starts_with(line, marker_adblock()) {
                assert(line.take(2)[0] == line[0]);
            }
        }
        assert(strip_prefix_all(line, marker_adblock()) == line);

        // One copy of the null-route prefix is stripped, and the domain,
        // holding no space, starts no further copy.
        assert(starts_with(line, prefix_zero())) by {
            assert(line.take(8) =~= prefix_zero());
        }
        assert(line.skip(8) =~= d);
        assert(!starts_with(d, prefix_zero())) by {
            if starts_with(d, prefix_zero()) {
                assert(d.take(8)[7] == d[7]);
                assert(d[7] == ' ');
            }
        }
        assert(strip_prefix_all(line, prefix_zero()) == strip_prefix_all(d, prefix_zero()));
        assert(strip_prefix_all(d, prefix_zero()) == d);

        // The loopback prefix ends in a space, so the domain starts none.
        assert(!starts_with(d, prefix_loopback())) by {
            if starts_with(d, prefix_loopback()) {
                assert(d.take(10)[9] == d[9]);
                assert(d[9] == ' ');
            }
        }
        assert(strip_prefix_all(d, prefix_loopback()) == d);

        // A canonical domain does not end with '^'.
        assert(strip_suffix_all(d, '^') == d);

        lemma_trimmed_no_space(d);
    }

    assert(spec_extract(line) == Some(d));
}

} // verus!
