//! Origins: the base locations that manifests and objects are fetched from.

use vstd::prelude::*;
use vstd::string::*;
use crate::text::{
    str_eq, strings_view, strip_trailing, strip_trailing_str, text_option, text_result, trim,
    trim_str,
};

verus! {

/// Why a list of origins is refused.
#[derive(Clone, Copy, Debug, PartialEq, Eq, Structural)]
pub enum OriginError {
    /// No origin was given.
    NoOrigins,
    /// An origin is empty, or white space only.
    Empty,
    /// An origin is not an absolute URL.
    Unparsable,
    /// An origin's scheme is neither `http` nor `https`.
    UnsupportedScheme,
}

/// What the fail-over logic reads of a parsed URL.
#[derive(Clone, Debug, PartialEq, Eq)]
pub struct UrlParts {
    /// The scheme, without the colon.
    pub scheme: String,
    /// The host, if the URL has one.
    pub host: Option<String>,
}

impl View for UrlParts {
    type V = (Seq<char>, Option<Seq<char>>);

    open spec fn view(&self) -> (Seq<char>, Option<Seq<char>>) {
        (self.scheme@, text_option(self.host))
    }
}

/// An optional `UrlParts` taken by its view.
pub open spec fn parts_view(parsed: Option<UrlParts>) -> Option<(Seq<char>, Option<Seq<char>>)> {
    match parsed {
        Some(parts) => Some(parts@),
        None => None,
    }
}

/// What the URL parser makes of `input`: nothing where it refuses the text,
/// else the scheme and the host of the URL it read.
pub uninterp spec fn url_parse(input: Seq<char>) -> Option<(Seq<char>, Option<Seq<char>>)>;

/// Calls `reqwest::Url::parse`, the parser of the `url` crate, and copies
/// what `Url::scheme` and `Url::host_str` give for the URL it returns; a
/// parse error becomes `None`. Believed, not proved: that the outcome is
/// `url_parse` of the input, that is, a function of the text alone.
#[verifier::external_body]
pub(crate) fn parse_url(input: &str) -> (r: Option<UrlParts>)
    ensures
        parts_view(r) == url_parse(input@),
{
    match reqwest::Url::parse(input) {
        Ok(url) => Some(
            UrlParts {
                scheme: url.scheme().to_string(),
                host: url.host_str().map(str::to_string),
            },
        ),
        Err(_) => None,
    }
}

/// The verdict on a trimmed origin `text`, given what the parser made of it.
pub open spec fn origin_verdict(
    text: Seq<char>,
    parsed: Option<(Seq<char>, Option<Seq<char>>)>,
) -> Result<Seq<char>, OriginError> {
    match parsed {
        None => Err(OriginError::Unparsable),
        Some(parts) => if parts.0 == "http"@ || parts.0 == "https"@ {
            Ok(text)
        } else {
            Err(OriginError::UnsupportedScheme)
        },
    }
}

/// The normal form of one origin: trimmed, without trailing `/`, and
/// accepted only as an `http` or `https` URL.
pub open spec fn normalized_origin(origin: Seq<char>) -> Result<Seq<char>, OriginError> {
    let trimmed = trim(origin);
    if trimmed.len() == 0 {
        Err(OriginError::Empty)
    } else {
        let text = strip_trailing(trimmed, '/');
        origin_verdict(text, url_parse(text))
    }
}

/// The normal forms of `origins` in order, each kept where it first occurs;
/// the first origin that is refused decides the error.
pub open spec fn distinct_origins(origins: Seq<Seq<char>>) -> Result<Seq<Seq<char>>, OriginError>
    decreases origins.len(),
{
    if origins.len() == 0 {
        Ok(Seq::empty())
    } else {
        match distinct_origins(origins.drop_last()) {
            Err(e) => Err(e),
            Ok(kept) => match normalized_origin(origins.last()) {
                Err(e) => Err(e),
                Ok(text) => Ok(
                    if kept.contains(text) {
                        kept
                    } else {
                        kept.push(text)
                    },
                ),
            },
        }
    }
}

/// The origin list that a configuration stands for.
pub open spec fn normalized_origins(origins: Seq<Seq<char>>) -> Result<Seq<Seq<char>>, OriginError> {
    if origins.len() == 0 {
        Err(OriginError::NoOrigins)
    } else {
        distinct_origins(origins)
    }
}

/// An error among the first `j` origins is the error of the whole list.
pub proof fn lemma_origin_prefix_error(origins: Seq<Seq<char>>, j: int, e: OriginError)
    requires
        0 <= j <= origins.len(),
        distinct_origins(origins.take(j)) == Err::<Seq<Seq<char>>, OriginError>(e),
    ensures
        distinct_origins(origins) == Err::<Seq<Seq<char>>, OriginError>(e),
    decreases origins.len(),
{
    if j == origins.len() {
        assert(origins.take(j) =~= origins);
    } else {
        assert(origins.drop_last().take(j) =~= origins.take(j));
        lemma_origin_prefix_error(origins.drop_last(), j, e);
    }
}

/// An accepted origin list holds no origin twice, holds the normal form of
/// every origin given, and holds nothing else.
pub proof fn lemma_origins_distinct(origins: Seq<Seq<char>>)
    requires
        distinct_origins(origins) is Ok,
    ensures
        distinct_origins(origins)->Ok_0.no_duplicates(),
        forall|i: int|
            0 <= i < origins.len() ==> normalized_origin(#[trigger] origins[i]) is Ok
                && distinct_origins(origins)->Ok_0.contains(normalized_origin(origins[i])->Ok_0),
        forall|k: int|
            0 <= k < distinct_origins(origins)->Ok_0.len() ==> exists|i: int|
                0 <= i < origins.len() && normalized_origin(origins[i]) == Ok::<
                    Seq<char>,
                    OriginError,
                >(#[trigger] distinct_origins(origins)->Ok_0[k]),
    decreases origins.len(),
{
    if origins.len() > 0 {
        let front = origins.drop_last();
        lemma_origins_distinct(front);
        let kept = distinct_origins(front)->Ok_0;
        let all = distinct_origins(origins)->Ok_0;
        let text = normalized_origin(origins.last())->Ok_0;
        assert forall|i: int| 0 <= i < origins.len() implies normalized_origin(
            #[trigger] origins[i],
        ) is Ok && all.contains(normalized_origin(origins[i])->Ok_0) by {
            if i < front.len() {
                assert(origins[i] == front[i]);
                let t = normalized_origin(front[i])->Ok_0;
                let k = choose|k: int| 0 <= k < kept.len() && kept[k] == t;
                assert(all[k] == t);
            } else {
                if kept.contains(text) {
                } else {
                    assert(all[kept.len() as int] == text);
                }
            }
        }
        assert forall|k: int| 0 <= k < all.len() implies exists|i: int|
            0 <= i < origins.len() && normalized_origin(origins[i]) == Ok::<Seq<char>, OriginError>(
                #[trigger] all[k],
            ) by {
            if k < kept.len() {
                assert(all[k] == kept[k]);
                let i = choose|i: int|
                    0 <= i < front.len() && normalized_origin(front[i]) == Ok::<
                        Seq<char>,
                        OriginError,
                    >(kept[k]);
                assert(origins[i] == front[i]);
            } else {
                assert(all[k] == text);
                assert(origins[origins.len() - 1] == origins.last());
            }
        }
    }
}

/// Decides on a trimmed origin once the parser has spoken: the text itself
/// where the scheme is `http` or `https`.
pub fn accept_origin(text: &str, parsed: Option<UrlParts>) -> (r: Result<String, OriginError>)
    ensures
        text_result(r) == origin_verdict(text@, parts_view(parsed)),
{
    match parsed {
        None => Err(OriginError::Unparsable),
        Some(parts) => {
            if str_eq(parts.scheme.as_str(), "http") || str_eq(parts.scheme.as_str(), "https") {
                Ok(String::from_str(text))
            } else {
                Err(OriginError::UnsupportedScheme)
            }
        },
    }
}

/// Brings one origin into normal form, or says why it is refused.
pub fn normalize_origin(origin: &str) -> (r: Result<String, OriginError>)
    ensures
        text_result(r) == normalized_origin(origin@),
{
    let trimmed = trim_str(origin);
    if trimmed.unicode_len() == 0 {
        return Err(OriginError::Empty);
    }
    let text = strip_trailing_str(trimmed, '/');
    let parsed = parse_url(text);
    accept_origin(text, parsed)
}

/// Whether `list` holds `text`.
fn holds(list: &Vec<String>, text: &String) -> (found: bool)
    ensures
        found == strings_view(list@).contains(text@),
{
    let mut i: usize = 0;
    while i < list.len()
        invariant
            i <= list@.len(),
            forall|j: int| 0 <= j < i ==> strings_view(list@)[j] != text@,
        decreases list@.len() - i,
    {
        if str_eq(list[i].as_str(), text.as_str()) {
            proof {
                assert(strings_view(list@)[i as int] == text@);
            }
            return true;
        }
        i += 1;
    }
    false
}

/// Brings a configured origin list into normal form: at least one origin,
/// each an `http` or `https` URL, each kept once, in the order given.
pub fn normalize_origins(origins: &[String]) -> (r: Result<Vec<String>, OriginError>)
    ensures
        match normalized_origins(strings_view(origins@)) {
            Ok(list) => r is Ok && strings_view(r->Ok_0@) == list && list.no_duplicates()
                && list.len() > 0,
            Err(e) => r == Err::<Vec<String>, OriginError>(e),
        },
{
    if origins.len() == 0 {
        return Err(OriginError::NoOrigins);
    }
    let ghost all = strings_view(origins@);
    let mut out: Vec<String> = Vec::new();
    let mut i: usize = 0;
    proof {
        assert(all.take(0) =~= Seq::<Seq<char>>::empty());
        assert(strings_view(out@) =~= Seq::<Seq<char>>::empty());
    }
    while i < origins.len()
        invariant
            i <= origins@.len(),
            origins@.len() > 0,
            all == strings_view(origins@),
            distinct_origins(all.take(i as int)) == Ok::<Seq<Seq<char>>, OriginError>(
                strings_view(out@),
            ),
        decreases origins@.len() - i,
    {
        let ghost upto = all.take(i + 1);
        proof {
            assert(upto.drop_last() =~= all.take(i as int));
            assert(upto.last() == origins@[i as int]@);
        }
        match normalize_origin(origins[i].as_str()) {
            Err(e) => {
                proof {
                    lemma_origin_prefix_error(all, i + 1, e);
                }
                return Err(e);
            },
            Ok(text) => {
                if !holds(&out, &text) {
                    let ghost before = strings_view(out@);
                    out.push(text);
                    proof {
                        assert(strings_view(out@) =~= before.push(text@));
                    }
                }
            },
        }
        i += 1;
    }
    proof {
        assert(all.take(i as int) =~= all);
        lemma_origins_distinct(all);
        let list = distinct_origins(all)->Ok_0;
        assert(list.contains(normalized_origin(all[0])->Ok_0));
    }
    Ok(out)
}

/// Where an origin serves the manifest of its latest version.
pub fn manifest_url(origin: &str) -> (url: String)
    ensures
        url@ == origin@ + "/manifests/latest.json"@,
{
    let mut url = String::from_str(origin);
    url.append("/manifests/latest.json");
    url
}

/// Where an origin serves the object named `hash`.
pub fn object_url(origin: &str, hash: &str) -> (url: String)
    ensures
        url@ == origin@ + "/objects/"@ + hash@,
{
    let mut url = String::from_str(origin);
    url.append("/objects/");
    url.append(hash);
    url
}

} // verus!
