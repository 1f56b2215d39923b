//! URLs: `scheme://host[:port][/path][?query]`.

use crate::error::RequestErrors;
use crate::roundtrip::lemma_parsed_is_well_formed;
use crate::text::{
    after, after_text, append_str, before, before_text, cut_after, cut_after_text, cut_before,
    cut_before_text, decimal, decimal_value, find_sub, find_text, from_chars, has_char, joined,
    parse_decimal, pieces, push_decimal, push_joined, same_text, slice_texts, split,
    string_texts, to_chars, Pair,
};
use vstd::prelude::*;

verus! {

/// One `name=value` pair of a query string.
#[derive(Debug, PartialEq)]
pub struct QueryParam {
    /// The name of the query parameter
    pub name: String,
    /// Value of the query parameter
    pub value: String,
}

impl View for QueryParam {
    type V = Pair;

    open spec fn view(&self) -> Pair {
        (self.name@, self.value@)
    }
}

impl Clone for QueryParam {
    fn clone(&self) -> (r: Self)
        ensures
            r == *self,
    {
        QueryParam { name: self.name.clone(), value: self.value.clone() }
    }
}

/// A URL taken apart.
#[derive(Debug, PartialEq)]
pub struct Url {
    /// Whether the scheme is `https`
    pub is_https: bool,
    /// Host name
    pub host: String,
    /// Query parameters, in the order of the query string
    pub query_params: Vec<QueryParam>,
    /// Port number: the one given, or else 443 for `https` and 80 otherwise
    pub port: u16,
    /// Path segments, without the slashes
    pub paths: Vec<String>,
}

/// What a `Url` holds, as mathematical values.
pub struct UrlView {
    pub is_https: bool,
    pub host: Seq<char>,
    pub port: u16,
    pub paths: Seq<Seq<char>>,
    pub query_params: Seq<Pair>,
}

/// The pairs that a vector of query parameters stands for.
pub open spec fn param_views(v: Seq<QueryParam>) -> Seq<Pair> {
    Seq::new(v.len(), |i: int| v[i]@)
}

impl View for Url {
    type V = UrlView;

    open spec fn view(&self) -> UrlView {
        UrlView {
            is_https: self.is_https,
            host: self.host@,
            port: self.port,
            paths: string_texts(self.paths@),
            query_params: param_views(self.query_params@),
        }
    }
}

// ---------------------------------------------------------------------------
// What a URL text means
// ---------------------------------------------------------------------------

/// The scheme of `s`: what stands before the first `://`, or all of `s` when
/// there is no `://`.
pub open spec fn scheme_of(s: Seq<char>) -> Seq<char> {
    before_text(s, "://"@)
}

/// What follows the first `://` of `s`, or all of `s` when there is no `://`.
pub open spec fn after_scheme(s: Seq<char>) -> Seq<char> {
    if find_text(s, "://"@) < s.len() {
        after_text(s, "://"@)
    } else {
        s
    }
}

/// The port that goes with a scheme when the URL names none.
pub open spec fn default_port(is_https: bool) -> u16 {
    if is_https {
        443
    } else {
        80
    }
}

/// The port of the authority `auth` (`host` or `host:port`): the number
/// after the first colon, the scheme's default when there is no colon, `None`
/// when what follows the colon is no number from 0 to 65535.
pub open spec fn port_of(auth: Seq<char>, is_https: bool) -> Option<u16> {
    if auth.contains(':') {
        match decimal_value(after(auth, ':'), 65535) {
            Some(n) => Some(n as u16),
            None => None,
        }
    } else {
        Some(default_port(is_https))
    }
}

/// The path segments of `path`, the text after the slash that ends the
/// authority. An empty `path` has none. Otherwise they are the pieces
/// between the slashes, each cut off at its first `?`.
pub open spec fn path_segments(path: Seq<char>) -> Seq<Seq<char>> {
    if path.len() == 0 {
        Seq::empty()
    } else {
        pieces(path, '/').map_values(|seg: Seq<char>| before(seg, '?'))
    }
}

/// The pair that one `name=value` piece of a query string stands for: it is
/// cut at the first `=`, and the value is empty when there is none.
pub open spec fn query_param(pair: Seq<char>) -> Pair {
    (before(pair, '='), after(pair, '='))
}

/// The query parameters of `path`. There are some only when the last piece
/// between the slashes holds a `?`: what follows its first `?` is cut at
/// every `&`.
pub open spec fn query_params(path: Seq<char>) -> Seq<Pair> {
    if path.len() == 0 {
        Seq::empty()
    } else {
        let last = pieces(path, '/').last();
        if last.contains('?') {
            pieces(after(last, '?'), '&').map_values(|pair: Seq<char>| query_param(pair))
        } else {
            Seq::empty()
        }
    }
}

/// What the URL text `s` means, or `None` when it names a port that is no
/// number from 0 to 65535.
pub open spec fn parse_url(s: Seq<char>) -> Option<UrlView> {
    let is_https = scheme_of(s) == "https"@;
    let rest = after_scheme(s);
    let auth = before(rest, '/');
    let path = after(rest, '/');
    match port_of(auth, is_https) {
        Some(port) => Some(
            UrlView {
                is_https,
                host: before(auth, ':'),
                port,
                paths: path_segments(path),
                query_params: query_params(path),
            },
        ),
        None => None,
    }
}

/// The `name=value` texts of `params`.
pub open spec fn pair_texts(params: Seq<Pair>) -> Seq<Seq<char>> {
    params.map_values(|p: Pair| p.0 + seq!['='] + p.1)
}

/// The query string for `params`: `name=value` for each, with `&` between.
pub open spec fn query_string(params: Seq<Pair>) -> Seq<char> {
    joined(pair_texts(params), '&')
}

/// The path and query that follow `host:port/` in the text of a URL: the
/// segments with `/` between, then `?` and the query string when there are
/// parameters.
pub open spec fn target_text(paths: Seq<Seq<char>>, params: Seq<Pair>) -> Seq<
    char,
> {
    joined(paths, '/') + (if params.len() == 0 {
        Seq::empty()
    } else {
        seq!['?'] + query_string(params)
    })
}

/// The text of a URL, with the port always written out:
/// `scheme://host:port/path?query`.
pub open spec fn url_text(u: UrlView) -> Seq<char> {
    (if u.is_https {
        "https"@
    } else {
        "http"@
    }) + "://"@ + u.host + seq![':'] + decimal(u.port as nat) + seq!['/'] + target_text(
        u.paths,
        u.query_params,
    )
}

/// A query parameter that can be written and read back: neither the name nor
/// the value holds `/` or `&`, and the name holds no `=`.
pub open spec fn plain_param(p: Pair) -> bool {
    &&& !p.0.contains('/')
    &&& !p.0.contains('&')
    &&& !p.0.contains('=')
    &&& !p.1.contains('/')
    &&& !p.1.contains('&')
}

/// A path segment that can be written and read back: it holds neither `/`
/// nor `?`.
pub open spec fn plain_segment(seg: Seq<char>) -> bool {
    !seg.contains('/') && !seg.contains('?')
}

/// A URL that can be written and read back: the host holds neither `/` nor
/// `:`, the segments and parameters are plain, there are no parameters
/// without a path, and a path of one empty segment has parameters.
pub open spec fn well_formed(u: UrlView) -> bool {
    &&& !u.host.contains('/')
    &&& !u.host.contains(':')
    &&& forall|i: int| 0 <= i < u.paths.len() ==> plain_segment(#[trigger] u.paths[i])
    &&& forall|i: int| 0 <= i < u.query_params.len() ==> plain_param(#[trigger] u.query_params[i])
    &&& u.paths.len() == 0 ==> u.query_params.len() == 0
    &&& u.paths.len() == 1 && u.paths[0].len() == 0 ==> u.query_params.len() > 0
}

// ---------------------------------------------------------------------------
// Taking a URL apart
// ---------------------------------------------------------------------------

/// Reads the path segments of `path`.
fn read_path_segments(path: &[char]) -> (out: Vec<String>)
    ensures
        string_texts(out@) == path_segments(path@),
{
    let mut out: Vec<String> = Vec::new();
    if path.len() == 0 {
        assert(string_texts(out@) =~= path_segments(path@));
        return out;
    }
    let segs = split(path, '/');
    let ghost want = path_segments(path@);
    let mut k: usize = 0;
    while k < segs.len()
        invariant
            k <= segs.len(),
            slice_texts(segs@) == pieces(path@, '/'),
            want == pieces(path@, '/').map_values(|seg: Seq<char>| before(seg, '?')),
            string_texts(out@) == want.take(k as int),
        decreases segs.len() - k,
    {
        let seg = cut_before(segs[k], '?');
        let ghost prev = string_texts(out@);
        assert(slice_texts(segs@)[k as int] == segs@[k as int]@);
        out.push(from_chars(seg));
        assert(string_texts(out@) =~= prev.push(seg@));
        assert(want.take(k + 1) =~= want.take(k as int).push(want[k as int]));
        k += 1;
    }
    assert(want.take(k as int) =~= want);
    out
}

/// Reads the query parameters of `path`.
fn read_query_params(path: &[char]) -> (out: Vec<QueryParam>)
    ensures
        param_views(out@) == query_params(path@),
{
    let mut out: Vec<QueryParam> = Vec::new();
    if path.len() == 0 {
        assert(param_views(out@) =~= query_params(path@));
        return out;
    }
    let segs = split(path, '/');
    let last = segs[segs.len() - 1];
    assert(slice_texts(segs@)[segs@.len() - 1] == last@);
    assert(last@ == pieces(path@, '/').last());
    if !has_char(last, '?') {
        assert(param_views(out@) =~= query_params(path@));
        return out;
    }
    let query = cut_after(last, '?');
    let pairs = split(query, '&');
    let ghost want = query_params(path@);
    let mut k: usize = 0;
    while k < pairs.len()
        invariant
            k <= pairs.len(),
            slice_texts(pairs@) == pieces(query@, '&'),
            want == pieces(query@, '&').map_values(|pair: Seq<char>| query_param(pair)),
            param_views(out@) == want.take(k as int),
        decreases pairs.len() - k,
    {
        let pair = pairs[k];
        let ghost prev = param_views(out@);
        assert(slice_texts(pairs@)[k as int] == pair@);
        let param = QueryParam {
            name: from_chars(cut_before(pair, '=')),
            value: from_chars(cut_after(pair, '=')),
        };
        out.push(param);
        assert(param_views(out@) =~= prev.push(query_param(pair@)));
        assert(want.take(k + 1) =~= want.take(k as int).push(want[k as int]));
        k += 1;
    }
    assert(want.take(k as int) =~= want);
    out
}

impl Url {
    /// Takes the URL text `url` apart.
    ///
    /// The scheme is what stands before the first `://`; only `https` makes the
    /// URL secure. The host is what follows, up to the first `/` or `:`. After
    /// a `:` comes the port, up to the next `/` or the end; it must be a number
    /// from 0 to 65535, else the URL is malformed. Without a port the scheme
    /// decides: 443 for `https`, 80 otherwise. What follows the first `/` is
    /// the path, cut at every `/`; if its last piece holds a `?`, what follows
    /// is the query string, cut at every `&` and each pair at its first `=`.
    pub fn build_from_string(url: String) -> (r: Result<Url, RequestErrors>)
        ensures
            match parse_url(url@) {
                Some(u) => r is Ok && r->Ok_0@ == u && well_formed(u),
                None => r == Err::<Url, RequestErrors>(RequestErrors::MalformedUrl),
            },
    {
        proof {
            lemma_parsed_is_well_formed(url@);
        }
        let chars = to_chars(url.as_str());
        let s = chars.as_slice();
        let sep = to_chars("://");
        let https = to_chars("https");
        let scheme = cut_before_text(s, sep.as_slice());
        let rest = if find_sub(s, sep.as_slice()) < s.len() {
            cut_after_text(s, sep.as_slice())
        } else {
            s
        };
        let is_https = same_text(scheme, https.as_slice());
        let auth = cut_before(rest, '/');
        let path = cut_after(rest, '/');
        let port: u16 = if has_char(auth, ':') {
            match parse_decimal(cut_after(auth, ':'), 65535) {
                Some(n) => n as u16,
                None => {
                    return Err(RequestErrors::MalformedUrl);
                },
            }
        } else if is_https {
            443
        } else {
            80
        };
        let host = from_chars(cut_before(auth, ':'));
        let paths = read_path_segments(path);
        let query_params = read_query_params(path);
        Ok(Url { is_https, host, query_params, port, paths })
    }

    /// The query string: `name=value` for each parameter, with `&` between.
    pub fn join_query_params(&self) -> (r: String)
        ensures
            r@ == query_string(self@.query_params),
    {
        let mut pairs: Vec<String> = Vec::new();
        let mut k: usize = 0;
        let ghost want = pair_texts(self@.query_params);
        while k < self.query_params.len()
            invariant
                k <= self.query_params.len(),
                want == pair_texts(self@.query_params),
                string_texts(pairs@) == want.take(k as int),
            decreases self.query_params.len() - k,
        {
            let ghost prev = string_texts(pairs@);
            let param = &self.query_params[k];
            let mut pair = param.name.clone();
            pair.push('=');
            append_str(&mut pair, param.value.as_str());
            assert(pair@ =~= want[k as int]);
            pairs.push(pair);
            assert(string_texts(pairs@) =~= prev.push(want[k as int]));
            assert(want.take(k + 1) =~= want.take(k as int).push(want[k as int]));
            k += 1;
        }
        assert(want.take(k as int) =~= want);
        let mut out = String::new();
        push_joined(&mut out, &pairs, '&');
        assert(Seq::<char>::empty() + joined(want, '&') =~= joined(want, '&'));
        out
    }

    /// The text of this URL, with the port always written out:
    /// `scheme://host:port/path?query`.
    pub fn to_text(&self) -> (r: String)
        ensures
            r@ == url_text(self@),
    {
        let mut out = String::new();
        if self.is_https {
            append_str(&mut out, "https");
        } else {
            append_str(&mut out, "http");
        }
        append_str(&mut out, "://");
        append_str(&mut out, self.host.as_str());
        out.push(':');
        push_decimal(&mut out, self.port as u64);
        out.push('/');
        push_joined(&mut out, &self.paths, '/');
        if self.query_params.len() > 0 {
            out.push('?');
            let query = self.join_query_params();
            append_str(&mut out, query.as_str());
        }
        assert(out@ =~= url_text(self@));
        out
    }
}

impl Clone for Url {
    fn clone(&self) -> (r: Self)
        ensures
            r@ == self@,
    {
        let paths = self.paths.clone();
        let query_params = self.query_params.clone();
        assert(string_texts(paths@) =~= string_texts(self.paths@));
        assert(param_views(query_params@) =~= param_views(self.query_params@));
        Url {
            is_https: self.is_https,
            host: self.host.clone(),
            query_params,
            port: self.port,
            paths,
        }
    }
}

} // verus!
