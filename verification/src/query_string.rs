use vstd::prelude::*;

use crate::strutil::{find_either, find_or, lemma_find_or, str_eq};

verus! {

/// The key-value pairs of a query string, in the order they were written.
/// Repeated keys keep every occurrence.
#[derive(Debug)]
pub struct QueryString {
    pairs: Vec<(String, String)>,
}

/// One `&`-separated piece as a pair: split at the first `=`; a piece
/// without `=` is a key with an empty value.
pub open spec fn spec_query_pair(piece: Seq<char>) -> (Seq<char>, Seq<char>) {
    let i = find_or(piece, '=', '=');
    if i < 0 {
        (piece, Seq::empty())
    } else {
        (piece.take(i), piece.skip(i + 1))
    }
}

/// The pairs of the text after `?`: one per `&`-separated piece, empty
/// pieces included.
pub open spec fn spec_parse_query(s: Seq<char>) -> Seq<(Seq<char>, Seq<char>)>
    decreases s.len(),
    via spec_parse_query_decreases
{
    let i = find_or(s, '&', '&');
    if i < 0 {
        seq![spec_query_pair(s)]
    } else {
        seq![spec_query_pair(s.take(i))] + spec_parse_query(s.skip(i + 1))
    }
}

#[via_fn]
proof fn spec_parse_query_decreases(s: Seq<char>) {
    lemma_find_or(s, '&', '&');
}

/// The value of the first pair whose key is exactly `key`, if any.
pub open spec fn spec_qs_lookup(ps: Seq<(Seq<char>, Seq<char>)>, key: Seq<char>) -> Option<
    Seq<char>,
>
    decreases ps.len(),
{
    if ps.len() == 0 {
        None
    } else if ps[0].0 == key {
        Some(ps[0].1)
    } else {
        spec_qs_lookup(ps.drop_first(), key)
    }
}

impl View for QueryString {
    type V = Seq<(Seq<char>, Seq<char>)>;

    closed spec fn view(&self) -> Seq<(Seq<char>, Seq<char>)> {
        Seq::new(self.pairs@.len(), |i: int| (self.pairs@[i].0@, self.pairs@[i].1@))
    }
}

/// Splits one piece at its first `=` and appends the pair.
fn push_pair(pairs: &mut Vec<(String, String)>, piece: &str)
    ensures
        final(pairs)@.len() == old(pairs)@.len() + 1,
        forall|k: int| 0 <= k < old(pairs)@.len() ==> final(pairs)@[k] == old(pairs)@[k],
        (final(pairs)@.last().0@, final(pairs)@.last().1@) == spec_query_pair(piece@),
{
    match find_either(piece, '=', '=') {
        None => {
            pairs.push((String::from_str(piece), String::new()));
        },
        Some(i) => {
            proof {
                lemma_find_or(piece@, '=', '=');
            }
            let n = piece.unicode_len();
            let key = piece.substring_char(0, i);
            let val = piece.substring_char(i + 1, n);
            proof {
                assert(key@ =~= piece@.take(i as int));
                assert(val@ =~= piece@.skip(i as int + 1));
            }
            pairs.push((String::from_str(key), String::from_str(val)));
        },
    }
}

impl QueryString {
    /// Parses the text after `?` into its pairs, splitting on `&`, then at
    /// the first `=` of each piece.
    pub fn from(s: &str) -> (q: QueryString)
        ensures
            q@ == spec_parse_query(s@),
    {
        let mut pairs: Vec<(String, String)> = Vec::new();
        let mut rest: &str = s;
        loop
            invariant_except_break
                spec_parse_query(s@) =~= qview(pairs@) + spec_parse_query(rest@),
            ensures
                qview(pairs@) == spec_parse_query(s@),
            decreases rest@.len(),
        {
            let ghost before = pairs@;
            let ghost rest0 = rest@;
            match find_either(rest, '&', '&') {
                None => {
                    push_pair(&mut pairs, rest);
                    proof {
                        assert(spec_parse_query(rest0) =~= seq![spec_query_pair(rest0)]);
                        assert(qview(pairs@) =~= qview(before) + spec_parse_query(rest0));
                    }
                    break ;
                },
                Some(i) => {
                    proof {
                        lemma_find_or(rest@, '&', '&');
                    }
                    let n = rest.unicode_len();
                    let piece = rest.substring_char(0, i);
                    proof {
                        assert(piece@ =~= rest0.take(i as int));
                    }
                    push_pair(&mut pairs, piece);
                    rest = rest.substring_char(i + 1, n);
                    proof {
                        assert(rest@ =~= rest0.skip(i as int + 1));
                        assert(qview(pairs@) =~= qview(before) + seq![spec_query_pair(
                            rest0.take(i as int),
                        )]);
                        assert(qview(pairs@) + spec_parse_query(rest@) =~= qview(before)
                            + spec_parse_query(rest0));
                    }
                },
            }
        }
        let q = QueryString { pairs };
        proof {
            assert(q@ =~= qview(q.pairs@));
        }
        q
    }

    /// Returns the value of the first pair whose key is exactly `key`.
    pub fn get(&self, key: &str) -> (r: Option<&String>)
        ensures
            match r {
                Some(v) => spec_qs_lookup(self@, key@) == Some(v@),
                None => spec_qs_lookup(self@, key@) is None,
            },
    {
        let n = self.pairs.len();
        let mut i: usize = 0;
        proof {
            assert(self@.skip(0) =~= self@);
        }
        while i < n
            invariant
                n == self.pairs@.len(),
                0 <= i <= n,
                spec_qs_lookup(self@, key@) == spec_qs_lookup(self@.skip(i as int), key@),
            decreases n - i,
        {
            proof {
                assert(self@.skip(i as int)[0] == self@[i as int]);
                assert(self@.skip(i as int).drop_first() =~= self@.skip(i as int + 1));
            }
            if str_eq(self.pairs[i].0.as_str(), key) {
                return Some(&self.pairs[i].1);
            }
            i = i + 1;
        }
        proof {
            assert(self@.skip(n as int).len() == 0);
        }
        None
    }
}

/// The pairs of a vector of owned strings, as character sequences.
pub open spec fn qview(ps: Seq<(String, String)>) -> Seq<(Seq<char>, Seq<char>)> {
    Seq::new(ps.len(), |i: int| (ps[i].0@, ps[i].1@))
}

} // verus!
