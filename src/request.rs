use vstd::prelude::*;
use crate::query::{QueryParams, parse_query_string, target_params};
use crate::split::{Separator, split, split_bytes, words, words_of, lemma_split_first};

verus! {

/// The first line of a buffer: everything before its first line feed.
pub open spec fn first_line(buf: Seq<u8>) -> Seq<u8> {
    split(buf, Separator::Byte(10))[0]
}

/// The request target named on the first line (its second word), or nothing.
pub open spec fn request_target(buf: Seq<u8>) -> Seq<u8> {
    let w = words(first_line(buf));
    if w.len() > 1 {
        w[1]
    } else {
        Seq::empty()
    }
}

/// The route part of a target: everything before its first `?`.
pub open spec fn route_part(target: Seq<u8>) -> Seq<u8> {
    split(target, Separator::Byte(63))[0]
}

/// A decoded request.
pub struct Request {
    pub method: Vec<u8>,
    pub path: Vec<u8>,
    pub query: QueryParams,
}

/// Decodes the bytes read from a connection. The buffer is split into words
/// at white space; fewer than two words make it malformed (`None`). The
/// first word is the method, the second, cut at its first `?`, the path.
/// The parameters come from the query of the target on the first line.
pub fn decode_request(buf: &[u8]) -> (r: Option<Request>)
    ensures
        r.is_none() == (words(buf@).len() < 2),
        r matches Some(req) ==> {
            &&& req.method@ == words(buf@)[0]
            &&& req.path@ == route_part(words(buf@)[1])
            &&& req.query.wf()
            &&& req.query@ == target_params(request_target(buf@))
        },
{
    let parts = words_of(buf);
    if parts.len() < 2 {
        return None;
    }
    assert(parts.deep_view()[0] =~= parts[0]@);
    assert(parts.deep_view()[1] =~= parts[1]@);
    let method = parts[0].clone();
    assert(method@ =~= parts[0]@);
    let pieces = split_bytes(parts[1].as_slice(), Separator::Byte(63));
    proof {
        lemma_split_first(parts[1]@, Separator::Byte(63));
    }
    let path = pieces[0].clone();
    assert(path@ =~= pieces[0]@);
    assert(pieces.deep_view()[0] =~= pieces[0]@);
    let lines = split_bytes(buf, Separator::Byte(10));
    proof {
        lemma_split_first(buf@, Separator::Byte(10));
    }
    assert(lines.deep_view()[0] =~= lines[0]@);
    let line_words = words_of(lines[0].as_slice());
    let query = if line_words.len() > 1 {
        assert(line_words.deep_view()[1] =~= line_words[1]@);
        parse_query_string(line_words[1].as_slice())
    } else {
        assert(request_target(buf@) == Seq::<u8>::empty());
        assert(split(Seq::<u8>::empty(), Separator::Byte(63)).len() == 1);
        parse_query_string(&[])
    };
    Some(Request { method, path, query })
}

} // verus!
