//! Hints for a reader of a failed connection. They change no decision.

use vstd::prelude::*;
use vstd::string::*;
use crate::origins::{parse_url, parts_view, url_parse, UrlParts};
use crate::text::{
    contains_str, find_part, join, join_range, occurs_in, position, split, split_str, str_eq,
    text_option, views,
};

verus! {

/// How a hint begins.
pub open spec fn hint_head() -> Seq<char> {
    "Try path-style origin for dotted bucket names, e.g. `https://"@
}

/// What a certificate error for the wrong host name says.
pub open spec fn mismatch_phrase() -> Seq<char> {
    "certificate not valid for name"@
}

/// The place of the storage endpoint's first label among a host's labels:
/// the first `s3`, else the first `s3-website`.
pub open spec fn endpoint_index(labels: Seq<Seq<char>>) -> Option<nat> {
    if position(labels, "s3"@) < labels.len() {
        Some(position(labels, "s3"@))
    } else if position(labels, "s3-website"@) < labels.len() {
        Some(position(labels, "s3-website"@))
    } else {
        None
    }
}

/// The hint for a host of the shape `<bucket with dots>.s3.<rest>`: the
/// endpoint `s3.<rest>` with the bucket as its first path segment. A bucket
/// of one label needs none.
pub open spec fn path_style_text(host: Seq<char>) -> Option<Seq<char>> {
    let labels = split(host, '.');
    match endpoint_index(labels) {
        Some(at) => if at <= 1 {
            None
        } else {
            Some(
                hint_head() + join(seq!["s3"@] + labels.skip(at as int + 1), "."@) + "/"@ + join(
                    labels.take(at as int),
                    "."@,
                ) + "`"@,
            )
        },
        None => None,
    }
}

/// The hint for a parsed origin: only an `https` URL with a host gets one.
pub open spec fn hint_for(parsed: Option<(Seq<char>, Option<Seq<char>>)>) -> Option<Seq<char>> {
    match parsed {
        Some(parts) => match parts.1 {
            Some(host) => if parts.0 == "https"@ {
                path_style_text(host)
            } else {
                None
            },
            None => None,
        },
        None => None,
    }
}

/// The hint that goes with a failed request, given whether the connection
/// itself failed and what the failure says.
pub open spec fn connection_hint_text(
    connect_failed: bool,
    message: Seq<char>,
    parsed: Option<(Seq<char>, Option<Seq<char>>)>,
) -> Option<Seq<char>> {
    if connect_failed && occurs_in(mismatch_phrase(), message) {
        hint_for(parsed)
    } else {
        None
    }
}

/// Suggests path-style addressing for a bucket whose name has dots.
pub fn path_style_hint(host: &str) -> (r: Option<String>)
    ensures
        text_option(r) == path_style_text(host@),
{
    let labels = split_str(host, '.');
    let ghost all = views(labels@);
    let mut at: usize = find_part(&labels, "s3");
    if at >= labels.len() {
        at = find_part(&labels, "s3-website");
        if at >= labels.len() {
            return None;
        }
    }
    if at <= 1 {
        return None;
    }
    let bucket = join_range(&labels, 0, at, ".");
    let mut tail: Vec<&str> = Vec::new();
    tail.push("s3");
    let mut i: usize = at + 1;
    proof {
        assert(views(tail@) =~= seq!["s3"@] + all.subrange(at + 1, i as int));
    }
    while i < labels.len()
        invariant
            at + 1 <= i <= labels@.len(),
            all == views(labels@),
            views(tail@) == seq!["s3"@] + all.subrange(at + 1, i as int),
        decreases labels@.len() - i,
    {
        let ghost before = views(tail@);
        tail.push(labels[i]);
        proof {
            assert(views(tail@) =~= before.push(labels@[i as int]@));
            assert(views(tail@) =~= seq!["s3"@] + all.subrange(at + 1, i + 1));
        }
        i += 1;
    }
    let endpoint = join_range(&tail, 0, tail.len(), ".");
    proof {
        assert(views(tail@).subrange(0, tail@.len() as int) =~= views(tail@));
        assert(all.subrange(at + 1, i as int) =~= all.skip(at + 1));
        assert(all.subrange(0, at as int) =~= all.take(at as int));
    }
    let mut hint = String::from_str(
        "Try path-style origin for dotted bucket names, e.g. `https://",
    );
    hint.append(endpoint.as_str());
    hint.append("/");
    hint.append(bucket.as_str());
    hint.append("`");
    Some(hint)
}

/// The hint for an origin that has been parsed already.
pub fn hint_from_parts(parsed: &Option<UrlParts>) -> (r: Option<String>)
    ensures
        text_option(r) == hint_for(parts_view(*parsed)),
{
    match parsed {
        Some(parts) => match &parts.host {
            Some(host) => {
                if str_eq(parts.scheme.as_str(), "https") {
                    path_style_hint(host.as_str())
                } else {
                    None
                }
            },
            None => None,
        },
        None => None,
    }
}

/// The hint for an origin whose certificate does not name its host.
pub fn tls_name_mismatch_hint(origin: &str) -> (r: Option<String>)
    ensures
        text_option(r) == hint_for(url_parse(origin@)),
{
    let parsed = parse_url(origin);
    hint_from_parts(&parsed)
}

/// The hint to put before a failed request's message, if any: only a failed
/// connection that complains of the certificate's name gets one.
pub fn connection_hint(connect_failed: bool, message: &str, origin: &str) -> (r: Option<String>)
    ensures
        text_option(r) == connection_hint_text(connect_failed, message@, url_parse(origin@)),
{
    if connect_failed && contains_str(message, "certificate not valid for name") {
        tls_name_mismatch_hint(origin)
    } else {
        None
    }
}

} // verus!
