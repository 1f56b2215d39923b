//! A URL that was read can be written out and read again: the second reading
//! gives what the first gave.

use crate::text::{
    after, before, decimal, index_of, is_digit, joined, lemma_contains_concat,
    lemma_cut, lemma_cut_none, lemma_cut_parts, lemma_decimal_value_of_decimal,
    lemma_find_text_concat, lemma_index_of, lemma_joined_free, lemma_joined_last, lemma_pieces,
    lemma_pieces_chars, lemma_pieces_of_joined, lemma_pieces_one, pieces, Pair,
};
use crate::url::{
    after_scheme, pair_texts, parse_url, path_segments, plain_param, plain_segment, query_param,
    query_params, query_string, scheme_of, target_text, url_text, well_formed, UrlView,
};
use vstd::prelude::*;

verus! {

/// What reading gives is well formed.
pub proof fn lemma_parsed_is_well_formed(s: Seq<char>)
    ensures
        parse_url(s) matches Some(u) ==> well_formed(u),
{
    if let Some(u) = parse_url(s) {
        let rest = after_scheme(s);
        let auth = before(rest, '/');
        let path = after(rest, '/');
        lemma_cut_parts(auth, ':', ':');
        lemma_cut_parts(auth, ':', '/');
        lemma_cut_parts(rest, '/', '/');
        if path.len() > 0 {
            let segs = pieces(path, '/');
            lemma_pieces(path, '/');
            assert forall|i: int| 0 <= i < u.paths.len() implies plain_segment(
                #[trigger] u.paths[i],
            ) by {
                assert(u.paths[i] == before(segs[i], '?'));
                assert(!segs[i].contains('/'));
                lemma_cut_parts(segs[i], '?', '?');
                lemma_cut_parts(segs[i], '?', '/');
            }
            let last = segs.last();
            assert(!last.contains('/'));
            if last.contains('?') {
                let query = after(last, '?');
                lemma_cut_parts(last, '?', '/');
                let pairs = pieces(query, '&');
                lemma_pieces(query, '&');
                lemma_pieces_chars(query, '&', '/');
                assert forall|i: int| 0 <= i < u.query_params.len() implies plain_param(
                    #[trigger] u.query_params[i],
                ) by {
                    let pair = pairs[i];
                    assert(u.query_params[i] == query_param(pair));
                    assert(!pair.contains('&'));
                    assert(!pair.contains('/'));
                    lemma_cut_parts(pair, '=', '=');
                    lemma_cut_parts(pair, '=', '/');
                    lemma_cut_parts(pair, '=', '&');
                }
            }
            if u.paths.len() == 1 && u.paths[0].len() == 0 {
                lemma_pieces_one(path, '/');
                assert(segs[0] == path);
                assert(u.paths[0] == before(path, '?'));
                lemma_index_of(path, '?');
                assert(index_of(path, '?') == 0);
                assert(last.contains('?'));
                lemma_pieces(after(last, '?'), '&');
            }
        } else {
            assert(u.paths.len() == 0);
        }
    }
}

/// The query string of plain parameters, cut at every `&` and each piece at
/// its first `=`, gives the parameters back.
proof fn lemma_query_string(params: Seq<Pair>)
    requires
        params.len() > 0,
        forall|i: int| 0 <= i < params.len() ==> plain_param(#[trigger] params[i]),
    ensures
        pieces(query_string(params), '&').map_values(|pair: Seq<char>| query_param(pair))
            == params,
        !query_string(params).contains('/'),
{
    let pairs = pair_texts(params);
    assert(query_string(params) == joined(pairs, '&'));
    assert forall|k: int| 0 <= k < pairs.len() implies !(#[trigger] pairs[k]).contains('&')
        && !pairs[k].contains('/') by {
        let p = params[k];
        assert(plain_param(p));
        let eq = seq!['='];
        assert(!eq.contains('&') && !eq.contains('/')) by {
            if eq.contains('&') {
                let j = choose|j: int| 0 <= j < eq.len() && eq[j] == '&';
            }
            if eq.contains('/') {
                let j = choose|j: int| 0 <= j < eq.len() && eq[j] == '/';
            }
        }
        lemma_contains_concat(p.0, eq, '&');
        lemma_contains_concat(p.0 + eq, p.1, '&');
        lemma_contains_concat(p.0, eq, '/');
        lemma_contains_concat(p.0 + eq, p.1, '/');
    }
    lemma_pieces_of_joined(pairs, '&');
    lemma_joined_free(pairs, '&', '/');
    let back = pieces(query_string(params), '&').map_values(|pair: Seq<char>| query_param(pair));
    assert forall|k: int| 0 <= k < params.len() implies back[k] == params[k] by {
        let p = params[k];
        assert(plain_param(p));
        assert(pairs[k] == p.0 + seq!['='] + p.1);
        lemma_cut(p.0, '=', p.1);
    }
    assert(back =~= params);
}

/// The path and query written for a well-formed URL read back as its
/// segments and parameters.
proof fn lemma_target_text(u: UrlView)
    requires
        well_formed(u),
    ensures
        path_segments(target_text(u.paths, u.query_params)) == u.paths,
        query_params(target_text(u.paths, u.query_params)) == u.query_params,
{
    let paths = u.paths;
    let params = u.query_params;
    let suffix = if params.len() == 0 {
        Seq::<char>::empty()
    } else {
        seq!['?'] + query_string(params)
    };
    let target = target_text(paths, params);
    assert(target == joined(paths, '/') + suffix);
    if paths.len() == 0 {
        assert(target =~= Seq::<char>::empty());
        assert(path_segments(target) =~= paths);
        assert(query_params(target) =~= params);
    } else {
        let n = paths.len() as int;
        let last = paths.last() + suffix;
        let written = paths.update(n - 1, last);
        lemma_joined_last(paths, '/', suffix);
        assert(target == joined(written, '/'));
        assert(plain_segment(paths[n - 1]));
        // the suffix holds no slash, and is empty or starts with `?`
        if params.len() > 0 {
            lemma_query_string(params);
            let mark = seq!['?'];
            if mark.contains('/') {
                let j = choose|j: int| 0 <= j < mark.len() && mark[j] == '/';
            }
            lemma_contains_concat(mark, query_string(params), '/');
            assert(suffix =~= Seq::<char>::empty() + seq!['?'] + query_string(params));
            assert(last =~= paths.last() + seq!['?'] + query_string(params));
            lemma_cut(paths.last(), '?', query_string(params));
        } else {
            assert(last =~= paths.last());
            lemma_cut_none(paths.last(), '?');
        }
        lemma_contains_concat(paths.last(), suffix, '/');
        assert forall|k: int| 0 <= k < written.len() implies !(#[trigger] written[k]).contains(
            '/',
        ) by {
            if k < n - 1 {
                assert(plain_segment(paths[k]));
            }
        }
        lemma_pieces_of_joined(written, '/');
        assert(pieces(target, '/') == written);
        // the target is not empty
        if target.len() == 0 {
            if n == 1 {
                assert(target == last);
                assert(paths[0].len() == 0);
            } else {
                assert(joined(written, '/') == written[0] + seq!['/'] + joined(
                    written.drop_first(),
                    '/',
                ));
            }
        }
        assert(target.len() > 0);
        let segs = path_segments(target);
        assert forall|k: int| 0 <= k < n implies segs[k] == paths[k] by {
            if k < n - 1 {
                assert(plain_segment(paths[k]));
                lemma_cut_none(paths[k], '?');
            }
        }
        assert(segs =~= paths);
        if params.len() > 0 {
            assert(query_params(target) == params);
        } else {
            assert(query_params(target) =~= params);
        }
    }
}

/// Reading what was written for a well-formed URL gives that URL.
pub proof fn lemma_read_written(u: UrlView)
    requires
        well_formed(u),
    ensures
        parse_url(url_text(u)) == Some(u),
{
    reveal_strlit("://");
    reveal_strlit("http");
    reveal_strlit("https");
    let scheme = if u.is_https {
        "https"@
    } else {
        "http"@
    };
    let sep = "://"@;
    let dec = decimal(u.port as nat);
    let target = target_text(u.paths, u.query_params);
    let auth = u.host + seq![':'] + dec;
    let rest = auth + seq!['/'] + target;
    let text = url_text(u);
    assert(text =~= scheme + sep + rest);
    assert(!scheme.contains(':')) by {
        if scheme.contains(':') {
            let j = choose|j: int| 0 <= j < scheme.len() && scheme[j] == ':';
        }
    }
    assert(sep.len() == 3);
    assert(sep[0] == ':');
    lemma_find_text_concat(scheme, sep, rest);
    assert(scheme_of(text) =~= scheme);
    assert(after_scheme(text) =~= rest);
    assert("http"@.len() != "https"@.len());
    assert((scheme == "https"@) == u.is_https);
    // the authority ends at the first slash
    lemma_decimal_value_of_decimal(u.port as nat, 65535);
    assert(!dec.contains('/') && !dec.contains(':')) by {
        if dec.contains('/') {
            let j = choose|j: int| 0 <= j < dec.len() && dec[j] == '/';
            assert(is_digit(dec[j]));
        }
        if dec.contains(':') {
            let j = choose|j: int| 0 <= j < dec.len() && dec[j] == ':';
            assert(is_digit(dec[j]));
        }
    }
    let colon = seq![':'];
    if colon.contains('/') {
        let j = choose|j: int| 0 <= j < colon.len() && colon[j] == '/';
    }
    lemma_contains_concat(u.host, colon, '/');
    lemma_contains_concat(u.host + colon, dec, '/');
    lemma_cut(auth, '/', target);
    // the host ends at the first colon
    lemma_cut(u.host, ':', dec);
    lemma_target_text(u);
}

/// Reading a URL, writing it out and reading it again gives what the first
/// reading gave. This holds of every text that can be read at all.
pub proof fn lemma_round_trip(s: Seq<char>)
    ensures
        parse_url(s) matches Some(u) ==> parse_url(url_text(u)) == Some(u),
{
    if let Some(u) = parse_url(s) {
        lemma_parsed_is_well_formed(s);
        lemma_read_written(u);
    }
}

} // verus!
