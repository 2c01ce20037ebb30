//! The LSP reframing layer: parses `Content-Length`-delimited messages out
//! of a byte stream of arbitrary chunking, rewrites URI schemes in both
//! directions, and forwards complete messages only.
//!
//! A message is `Content-Length: N\r\n[<other headers>\r\n]*\r\n<N bytes>`.
//! Each stdio direction owns a reassembly buffer; a partial message never
//! reaches the peer, and trailing bytes stay buffered for the next call.

use vstd::prelude::*;

use crate::rewrite::{
    contains_seq, find_spec, find_subseq, lemma_find_prefix_stable, lemma_find_spec_none,
    lemma_find_spec_props, lemma_find_spec_unique, lemma_occurs_in_subrange,
    lemma_replace_round_trip, occurs_at, replace_all, replace_all_bytes,
};

verus! {

/// The two-byte line terminator.
pub open spec fn crlf() -> Seq<u8> {
    seq![13u8, 10u8]
}

/// The four bytes separating the header block from the content.
pub open spec fn crlf2() -> Seq<u8> {
    seq![13u8, 10u8, 13u8, 10u8]
}

/// The bytes of `Content-Length:`.
pub open spec fn content_length_prefix() -> Seq<u8> {
    seq![67u8, 111u8, 110u8, 116u8, 101u8, 110u8, 116u8, 45u8, 76u8, 101u8, 110u8, 103u8,
        116u8, 104u8, 58u8]
}

/// The bytes of `distant://`.
pub open spec fn distant_scheme() -> Seq<u8> {
    seq![100u8, 105u8, 115u8, 116u8, 97u8, 110u8, 116u8, 58u8, 47u8, 47u8]
}

/// The bytes of `file://`.
pub open spec fn file_scheme() -> Seq<u8> {
    seq![102u8, 105u8, 108u8, 101u8, 58u8, 47u8, 47u8]
}

/// Whether a byte is an ASCII decimal digit.
pub open spec fn is_digit(b: u8) -> bool {
    48 <= b <= 57
}

/// Whether every byte of `s` is a decimal digit.
pub open spec fn all_digits(s: Seq<u8>) -> bool {
    forall|i: int| 0 <= i < s.len() ==> is_digit(#[trigger] s[i])
}

/// The number a string of decimal digits denotes.
pub open spec fn digits_val(s: Seq<u8>) -> int
    decreases s.len(),
{
    if s.len() == 0 {
        0
    } else {
        digits_val(s.drop_last()) * 10 + (s.last() - 48)
    }
}

/// The decimal digits of a number, most significant first.
pub open spec fn dec_digits(n: int) -> Seq<u8>
    decreases n,
{
    if n < 10 {
        seq![(48 + if n >= 0 { n } else { 0 }) as u8]
    } else {
        dec_digits(n / 10).push((48 + n % 10) as u8)
    }
}

/// A digit string denotes a non-negative number.
pub proof fn lemma_digits_val_nonneg(s: Seq<u8>)
    requires
        all_digits(s),
    ensures
        digits_val(s) >= 0,
    decreases s.len(),
{
    if s.len() > 0 {
        assert(all_digits(s.drop_last())) by {
            assert(forall|i: int|
                0 <= i < s.len() - 1 ==> #[trigger] s.drop_last()[i] == s[i]);
        }
        lemma_digits_val_nonneg(s.drop_last());
        assert(is_digit(s[s.len() - 1]));
    }
}

/// The decimal digits of a number denote it, and are digits.
pub proof fn lemma_dec_digits(n: int)
    requires
        n >= 0,
    ensures
        all_digits(dec_digits(n)),
        dec_digits(n).len() >= 1,
        digits_val(dec_digits(n)) == n,
        is_digit(dec_digits(n)[0]),
    decreases n,
{
    if n < 10 {
        let s = dec_digits(n);
        assert(s.len() == 1);
        assert(s.last() == (48 + n) as u8);
        assert(s.drop_last() =~= Seq::<u8>::empty());
        assert(digits_val(s) == digits_val(s.drop_last()) * 10 + (s.last() - 48));
        assert(digits_val(s) == n);
    } else {
        lemma_dec_digits(n / 10);
        let d = dec_digits(n / 10);
        let full = d.push((48 + n % 10) as u8);
        assert(full.drop_last() =~= d);
        assert(digits_val(full) == (n / 10) * 10 + n % 10);
        assert((n / 10) * 10 + n % 10 == n);
        assert forall|i: int| 0 <= i < full.len() implies is_digit(#[trigger] full[i]) by {
            if i < d.len() {
                assert(is_digit(d[i]));
            }
        }
    }
}

/// `s` with its leading ASCII spaces removed.
pub open spec fn skip_spaces(s: Seq<u8>) -> Seq<u8>
    decreases s.len(),
{
    if s.len() > 0 && s[0] == 32 {
        skip_spaces(s.skip(1))
    } else {
        s
    }
}

/// What a header line says as a content length: the value after
/// `Content-Length:` and any spaces, provided the rest of the line is one
/// or more digits; anything else is no content-length line.
pub open spec fn parse_cl_line(l: Seq<u8>) -> Option<int> {
    if l.len() >= 15 && l.subrange(0, 15) == content_length_prefix() {
        let v = skip_spaces(l.subrange(15, l.len() as int));
        if v.len() >= 1 && all_digits(v) {
            Some(digits_val(v))
        } else {
            None
        }
    } else {
        None
    }
}

/// A header line is well formed when it is non-empty and free of the line
/// terminator.
pub open spec fn wf_line(l: Seq<u8>) -> bool {
    l.len() >= 1 && !contains_seq(l, crlf())
}

/// All lines of a header block are well formed.
pub open spec fn wf_lines(ls: Seq<Seq<u8>>) -> bool {
    forall|i: int| 0 <= i < ls.len() ==> wf_line(#[trigger] ls[i])
}

/// The byte form of a header block: each line followed by the terminator.
pub open spec fn join_lines(ls: Seq<Seq<u8>>) -> Seq<u8>
    decreases ls.len(),
{
    if ls.len() == 0 {
        Seq::empty()
    } else {
        ls[0] + crlf() + join_lines(ls.skip(1))
    }
}

/// A header block split back into lines, each without its terminator;
/// nothing when a trailing fragment has no terminator.
pub open spec fn split_lines(h: Seq<u8>) -> Option<Seq<Seq<u8>>>
    decreases h.len(),
{
    if h.len() == 0 {
        Some(Seq::empty())
    } else {
        match find_spec(h, crlf(), 0) {
            Some(e) => {
                if 0 <= e && e + 2 <= h.len() {
                    match split_lines(h.subrange(e + 2, h.len() as int)) {
                        Some(rest) => Some(seq![h.subrange(0, e)] + rest),
                        None => None,
                    }
                } else {
                    None
                }
            },
            None => None,
        }
    }
}

/// The first line of a header block that parses as a content length.
pub open spec fn find_cl_index(ls: Seq<Seq<u8>>) -> Option<int>
    decreases ls.len(),
{
    if ls.len() == 0 {
        None
    } else if parse_cl_line(ls[0]) is Some {
        Some(0)
    } else {
        match find_cl_index(ls.skip(1)) {
            Some(j) => Some(j + 1),
            None => None,
        }
    }
}

/// What `find_cl_index` returns is the first content-length line.
pub proof fn lemma_find_cl_index_props(ls: Seq<Seq<u8>>)
    ensures
        match find_cl_index(ls) {
            Some(i) => 0 <= i < ls.len() && parse_cl_line(ls[i]) is Some && forall|j: int|
                0 <= j < i ==> parse_cl_line(#[trigger] ls[j]) is None,
            None => forall|j: int| 0 <= j < ls.len() ==> parse_cl_line(#[trigger] ls[j]) is None,
        },
    decreases ls.len(),
{
    if ls.len() == 0 {
    } else if parse_cl_line(ls[0]) is Some {
    } else {
        lemma_find_cl_index_props(ls.skip(1));
        match find_cl_index(ls.skip(1)) {
            Some(j) => {
                assert(ls.skip(1)[j] == ls[j + 1]);
                assert forall|k: int| 0 <= k < j + 1 implies parse_cl_line(
                    #[trigger] ls[k],
                ) is None by {
                    if k > 0 {
                        assert(ls.skip(1)[k - 1] == ls[k]);
                    }
                }
            },
            None => {
                assert forall|k: int| 0 <= k < ls.len() implies parse_cl_line(
                    #[trigger] ls[k],
                ) is None by {
                    if k > 0 {
                        assert(ls.skip(1)[k - 1] == ls[k]);
                    }
                }
            },
        }
    }
}

/// One LSP message: the header lines other than the content-length line,
/// in order, and the content bytes.
#[verifier::ext_equal]
pub struct LspMsg {
    /// The header lines besides the content-length line, without their
    /// terminators.
    pub others: Seq<Seq<u8>>,
    /// The content bytes.
    pub content: Seq<u8>,
}

/// A message is well formed when its extra header lines are.
pub open spec fn wf_msg(m: LspMsg) -> bool {
    wf_lines(m.others)
}

/// The byte encoding of a message: a content-length line for the content's
/// exact byte length, the other header lines, the blank line, the content.
pub open spec fn encode_msg(m: LspMsg) -> Seq<u8> {
    content_length_prefix() + seq![32u8] + dec_digits(m.content.len() as int) + crlf()
        + join_lines(m.others) + crlf() + m.content
}

/// What the head of a reassembly buffer parses to.
pub enum FrontParse {
    /// No complete message yet: the whole buffer is retained.
    Incomplete,
    /// A header block arrived that carries no usable content length: the
    /// buffer is retained and nothing more will be parsed from it.
    Malformed,
    /// One complete message, and the count of bytes it occupies.
    Parsed(LspMsg, int),
}

/// Parses the first complete message off the front of `buf`.
pub open spec fn parse_front(buf: Seq<u8>) -> FrontParse {
    match find_spec(buf, crlf2(), 0) {
        None => FrontParse::Incomplete,
        Some(sep) => {
            if 0 <= sep && sep + 4 <= buf.len() {
                match split_lines(buf.subrange(0, sep + 2)) {
                    None => FrontParse::Malformed,
                    Some(lines) => match find_cl_index(lines) {
                        None => FrontParse::Malformed,
                        Some(ci) => {
                            let n = parse_cl_line(lines[ci])->0;
                            if n > usize::MAX {
                                FrontParse::Malformed
                            } else if buf.len() >= sep + 4 + n {
                                FrontParse::Parsed(
                                    LspMsg {
                                        others: lines.remove(ci),
                                        content: buf.subrange(sep + 4, sep + 4 + n),
                                    },
                                    sep + 4 + n,
                                )
                            } else {
                                FrontParse::Incomplete
                            }
                        },
                    },
                }
            } else {
                FrontParse::Incomplete
            }
        },
    }
}

/// A parsed message occupies at least the header separator and at most the
/// whole buffer.
pub proof fn lemma_parse_front_bounds(buf: Seq<u8>)
    ensures
        parse_front(buf) matches FrontParse::Parsed(m, c) ==> 4 <= c <= buf.len()
            && m.content.len() <= usize::MAX,
{
    lemma_find_spec_props(buf, crlf2(), 0);
    if parse_front(buf) is Parsed {
        let sep = find_spec(buf, crlf2(), 0)->0;
        let lines = split_lines(buf.subrange(0, sep + 2))->0;
        let ci = find_cl_index(lines)->0;
        lemma_find_cl_index_props(lines);
        let l = lines[ci];
        let v = skip_spaces(l.subrange(15, l.len() as int));
        lemma_digits_val_nonneg(v);
        assert(parse_cl_line(l)->0 >= 0);
    }
}

/// Parsing the front of a buffer is unaffected by whatever arrives after
/// it: a complete message parses the same with more bytes behind it.
pub proof fn lemma_parse_front_stable(buf: Seq<u8>, ext: Seq<u8>)
    requires
        parse_front(buf) is Parsed,
    ensures
        parse_front(buf + ext) == parse_front(buf),
{
    lemma_parse_front_bounds(buf);
    lemma_find_spec_props(buf, crlf2(), 0);
    let sep = find_spec(buf, crlf2(), 0)->0;
    lemma_find_prefix_stable(buf, ext, crlf2(), 0, sep);
    assert((buf + ext).subrange(0, sep + 2) =~= buf.subrange(0, sep + 2));
    let lines = split_lines(buf.subrange(0, sep + 2))->0;
    let ci = find_cl_index(lines)->0;
    lemma_find_cl_index_props(lines);
    let n = parse_cl_line(lines[ci])->0;
    assert(sep + 4 + n <= buf.len());
    assert(n >= 0) by {
        let l = lines[ci];
        let v = skip_spaces(l.subrange(15, l.len() as int));
        lemma_digits_val_nonneg(v);
    }
    assert((buf + ext).subrange(sep + 4, sep + 4 + n) =~= buf.subrange(sep + 4, sep + 4 + n));
}

/// Every complete message drained off the front of `buf`, with the bytes
/// that remain.
pub open spec fn drain_spec(buf: Seq<u8>) -> (Seq<LspMsg>, Seq<u8>)
    decreases buf.len(),
{
    match parse_front(buf) {
        FrontParse::Parsed(m, c) => {
            if 1 <= c <= buf.len() {
                let rec = drain_spec(buf.subrange(c, buf.len() as int));
                (seq![m] + rec.0, rec.1)
            } else {
                (Seq::empty(), buf)
            }
        },
        _ => (Seq::empty(), buf),
    }
}

/// An occurrence behind a prefix is an occurrence in the appended part.
proof fn lemma_occurs_append(prefix: Seq<u8>, s2: Seq<u8>, p: Seq<u8>, j: int)
    requires
        0 <= j,
    ensures
        occurs_at(prefix + s2, p, prefix.len() + j) <==> (j + p.len() <= s2.len() && occurs_at(
            s2,
            p,
            j,
        )),
{
    if j + p.len() <= s2.len() {
        assert((prefix + s2).subrange(prefix.len() + j, prefix.len() + j + p.len())
            =~= s2.subrange(j, j + p.len()));
    }
}

/// A well-formed line holds no line terminator spanning into what follows:
/// the first terminator of `l + crlf() + rest` sits exactly at the line's
/// end.
proof fn lemma_first_crlf_after_line(l: Seq<u8>, rest: Seq<u8>)
    requires
        wf_line(l),
    ensures
        find_spec(l + crlf() + rest, crlf(), 0) == Some(l.len() as int),
{
    let s = l + crlf() + rest;
    assert(occurs_at(s, crlf(), l.len() as int)) by {
        assert(s.subrange(l.len() as int, l.len() as int + 2) =~= crlf());
    }
    assert forall|j: int| 0 <= j < l.len() implies !occurs_at(s, crlf(), j) by {
        if occurs_at(s, crlf(), j) {
            if j + 2 <= l.len() {
                assert(l.subrange(j, j + 2) =~= s.subrange(j, j + 2));
                assert(occurs_at(l, crlf(), j));
                assert(contains_seq(l, crlf()));
            } else {
                // The terminator would have to start on the line's last
                // byte, putting a carriage return where the line feed of
                // the appended terminator sits.
                assert(j == l.len() - 1);
                assert(s.subrange(j, j + 2)[1] == s[j + 1]);
                assert(s[l.len() as int] == 13u8);
                assert(crlf()[1] == 10u8);
            }
        }
    }
    lemma_find_spec_unique(s, crlf(), 0, l.len() as int);
}

/// Splitting the byte form of a well-formed header block restores its
/// lines.
pub proof fn lemma_split_join(ls: Seq<Seq<u8>>)
    requires
        wf_lines(ls),
    ensures
        split_lines(join_lines(ls)) == Some(ls),
    decreases ls.len(),
{
    if ls.len() == 0 {
        assert(split_lines(join_lines(ls)) == Some(Seq::<Seq<u8>>::empty()));
        assert(ls =~= Seq::<Seq<u8>>::empty());
    } else {
        let l0 = ls[0];
        let rest = ls.skip(1);
        let h = join_lines(ls);
        assert(h == l0 + crlf() + join_lines(rest));
        assert(wf_line(l0));
        lemma_first_crlf_after_line(l0, join_lines(rest));
        assert(h.len() >= l0.len() + 2);
        assert(h.subrange(0, l0.len() as int) =~= l0);
        assert(h.subrange(l0.len() as int + 2, h.len() as int) =~= join_lines(rest));
        assert(wf_lines(rest)) by {
            assert(forall|i: int|
                0 <= i < rest.len() ==> #[trigger] rest[i] == ls[i + 1]);
        }
        lemma_split_join(rest);
        assert(split_lines(h) == Some(seq![l0] + rest));
        assert(seq![l0] + rest =~= ls);
    }
}

/// The first header separator of an encoded header block followed by
/// anything sits exactly before the blank line: two bytes short of the
/// block's end.
proof fn lemma_enc_sep(all: Seq<Seq<u8>>, t: Seq<u8>)
    requires
        wf_lines(all),
        all.len() >= 1,
    ensures
        find_spec(join_lines(all) + crlf() + t, crlf2(), 0) == Some(
            join_lines(all).len() - 2,
        ),
        join_lines(all).len() >= 3,
    decreases all.len(),
{
    let l0 = all[0];
    let rest = all.skip(1);
    let jall = join_lines(all);
    let s = jall + crlf() + t;
    assert(jall == l0 + crlf() + join_lines(rest));
    assert(wf_line(l0));
    assert(wf_lines(rest)) by {
        assert(forall|i: int| 0 <= i < rest.len() ==> #[trigger] rest[i] == all[i + 1]);
    }
    if rest.len() == 0 {
        assert(jall =~= l0 + crlf());
        let sep = l0.len() as int;
        assert(s =~= l0 + crlf() + crlf() + t);
        assert(occurs_at(s, crlf2(), sep)) by {
            assert(s.subrange(sep, sep + 4) =~= crlf2());
        }
        assert forall|j: int| 0 <= j < sep implies !occurs_at(s, crlf2(), j) by {
            if occurs_at(s, crlf2(), j) {
                assert(s.subrange(j, j + 4)[0] == s[j]);
                assert(s.subrange(j, j + 4)[1] == s[j + 1]);
                assert(s[j] == 13u8 && s[j + 1] == 10u8);
                if j + 2 <= l0.len() {
                    assert(occurs_at(l0, crlf(), j)) by {
                        assert(l0.subrange(j, j + 2)[0] == s[j]);
                        assert(l0.subrange(j, j + 2)[1] == s[j + 1]);
                        assert(l0.subrange(j, j + 2) =~= crlf());
                    }
                    assert(contains_seq(l0, crlf()));
                } else {
                    assert(j == l0.len() - 1);
                    assert(s[j + 1] == 13u8);
                }
            }
        }
        lemma_find_spec_unique(s, crlf2(), 0, sep);
    } else {
        let s2 = join_lines(rest) + crlf() + t;
        lemma_enc_sep(rest, t);
        let sep2 = join_lines(rest).len() - 2;
        lemma_find_spec_props(s2, crlf2(), 0);
        let sep = l0.len() + 2 + sep2;
        assert(s =~= (l0 + crlf()) + s2);
        assert(occurs_at(s, crlf2(), sep)) by {
            lemma_occurs_append(l0 + crlf(), s2, crlf2(), sep2);
        }
        assert forall|j: int| 0 <= j < sep implies !occurs_at(s, crlf2(), j) by {
            if occurs_at(s, crlf2(), j) {
                assert(s.subrange(j, j + 4)[0] == s[j]);
                assert(s.subrange(j, j + 4)[1] == s[j + 1]);
                assert(s.subrange(j, j + 4)[2] == s[j + 2]);
                assert(s.subrange(j, j + 4)[3] == s[j + 3]);
                assert(s[j] == 13u8 && s[j + 1] == 10u8 && s[j + 2] == 13u8 && s[j + 3]
                    == 10u8);
                if j + 2 <= l0.len() {
                    assert(occurs_at(l0, crlf(), j)) by {
                        assert(l0.subrange(j, j + 2)[0] == s[j]);
                        assert(l0.subrange(j, j + 2)[1] == s[j + 1]);
                        assert(l0.subrange(j, j + 2) =~= crlf());
                    }
                    assert(contains_seq(l0, crlf()));
                } else if j == l0.len() - 1 {
                    assert(s[j + 1] == 13u8);
                } else if j == l0.len() {
                    // The two bytes after the line's terminator open the
                    // next line, which neither is empty nor starts with a
                    // terminator.
                    let r0 = rest[0];
                    assert(join_lines(rest) == r0 + crlf() + join_lines(rest.skip(1)));
                    assert(wf_line(r0));
                    if r0.len() == 1 {
                        assert(s[j + 3] == s2[1]);
                        assert(s2[1] == 13u8);
                    } else {
                        assert(occurs_at(r0, crlf(), 0)) by {
                            assert(s2[0] == s[j + 2] && s2[1] == s[j + 3]) by {
                                assert(s =~= (l0 + crlf()) + s2);
                            }
                            assert(r0.subrange(0, 2)[0] == s2[0]);
                            assert(r0.subrange(0, 2)[1] == s2[1]);
                            assert(r0.subrange(0, 2) =~= crlf());
                        }
                        assert(contains_seq(r0, crlf()));
                    }
                } else if j == l0.len() + 1 {
                    assert(s[j] == 10u8);
                } else {
                    let j2 = j - (l0.len() + 2);
                    assert(occurs_at(s2, crlf2(), j2)) by {
                        lemma_occurs_append(l0 + crlf(), s2, crlf2(), j2);
                    }
                    assert(j2 < sep2);
                }
            }
        }
        lemma_find_spec_unique(s, crlf2(), 0, sep);
        assert(jall.len() == l0.len() + 2 + join_lines(rest).len());
    }
}

/// The content-length line emitted for a content of `n` bytes.
pub open spec fn cl_line_of(n: int) -> Seq<u8> {
    content_length_prefix() + seq![32u8] + dec_digits(n)
}

/// The emitted content-length line is well formed and parses back to its
/// length.
proof fn lemma_cl_line_of(n: int)
    requires
        0 <= n,
    ensures
        wf_line(cl_line_of(n)),
        parse_cl_line(cl_line_of(n)) == Some(n),
    decreases 0int,
{
    lemma_dec_digits(n);
    let l = cl_line_of(n);
    let dd = dec_digits(n);
    assert(l.len() == 16 + dd.len());
    // None of the line's bytes is a carriage return, so no terminator
    // occurs in it.
    assert forall|j: int| 0 <= j < l.len() implies l[j] != 13u8 by {
        if j < 15 {
            assert(content_length_prefix()[j] != 13u8);
        } else if j == 15 {
        } else {
            assert(is_digit(dd[j - 16]));
        }
    }
    assert forall|j: int| !occurs_at(l, crlf(), j) by {
        if occurs_at(l, crlf(), j) {
            assert(l.subrange(j, j + 2)[0] == l[j]);
            assert(l[j] == 13u8);
        }
    }
    assert(l.subrange(0, 15) =~= content_length_prefix());
    let v = l.subrange(15, l.len() as int);
    assert(v =~= seq![32u8] + dd);
    assert(v[0] == 32u8);
    assert(v.skip(1) =~= dd);
    assert(skip_spaces(v) == skip_spaces(dd));
    assert(dd[0] != 32u8);
    assert(skip_spaces(dd) == dd);
}

/// An encoded message, followed by anything at all, parses back to exactly
/// that message, consuming exactly the encoding.
pub proof fn lemma_parse_encode(m: LspMsg, ext: Seq<u8>)
    requires
        wf_msg(m),
        m.content.len() <= usize::MAX,
    ensures
        parse_front(encode_msg(m) + ext) == FrontParse::Parsed(m, encode_msg(m).len() as int),
    decreases 0int,
{
    let n = m.content.len() as int;
    lemma_cl_line_of(n);
    let cl = cl_line_of(n);
    let all = seq![cl] + m.others;
    assert(wf_lines(all)) by {
        assert(forall|i: int| 1 <= i < all.len() ==> #[trigger] all[i] == m.others[i - 1]);
        assert(all[0] == cl);
    }
    let jall = join_lines(all);
    assert(jall == cl + crlf() + join_lines(all.skip(1)));
    assert(all.skip(1) =~= m.others);
    let buf = encode_msg(m) + ext;
    let t = m.content + ext;
    assert(buf =~= jall + crlf() + t);
    lemma_enc_sep(all, t);
    let sep = jall.len() - 2;
    assert(find_spec(buf, crlf2(), 0) == Some(sep));
    assert(buf.subrange(0, sep + 2) =~= jall);
    lemma_split_join(all);
    assert(split_lines(buf.subrange(0, sep + 2)) == Some(all));
    assert(find_cl_index(all) == Some(0int)) by {
        assert(parse_cl_line(all[0]) is Some);
    }
    assert(parse_cl_line(all[0]) == Some(n));
    assert(buf.len() >= sep + 4 + n);
    let parsed_others = all.remove(0);
    assert(parsed_others =~= m.others);
    let parsed_content = buf.subrange(sep + 4, sep + 4 + n);
    assert(parsed_content =~= m.content);
    assert(parse_front(buf) == FrontParse::Parsed(
        LspMsg { others: parsed_others, content: parsed_content },
        sep + 4 + n,
    ));
    assert(LspMsg { others: parsed_others, content: parsed_content } =~= m);
    assert(encode_msg(m).len() == sep + 4 + n);
}

/// A strict prefix of one encoded message holds no complete message: the
/// reframer yields nothing until the final byte arrives, and retains the
/// bytes for the next call.
pub proof fn lemma_encoding_prefix_incomplete(m: LspMsg, c: int)
    requires
        wf_msg(m),
        m.content.len() <= usize::MAX,
        0 <= c < encode_msg(m).len(),
    ensures
        parse_front(encode_msg(m).subrange(0, c)) is Incomplete,
        drain_spec(encode_msg(m).subrange(0, c)) == (
            Seq::<LspMsg>::empty(),
            encode_msg(m).subrange(0, c),
        ),
{
    let n = m.content.len() as int;
    lemma_cl_line_of(n);
    let cl = cl_line_of(n);
    let all = seq![cl] + m.others;
    assert(wf_lines(all)) by {
        assert(forall|i: int| 1 <= i < all.len() ==> #[trigger] all[i] == m.others[i - 1]);
        assert(all[0] == cl);
    }
    let enc = encode_msg(m);
    assert(all.skip(1) =~= m.others);
    assert(join_lines(all) == cl + crlf() + join_lines(all.skip(1)));
    assert(enc =~= join_lines(all) + crlf() + m.content);
    lemma_enc_sep(all, m.content);
    let sep = join_lines(all).len() - 2;
    assert(find_spec(enc, crlf2(), 0) == Some(sep));
    lemma_find_spec_props(enc, crlf2(), 0);
    assert(enc.len() == sep + 4 + n);
    let prefix = enc.subrange(0, c);
    // An occurrence of the separator in the prefix is one in the whole.
    assert forall|j: int| occurs_at(prefix, crlf2(), j) implies occurs_at(enc, crlf2(), j)
        && j + 4 <= c by {
        lemma_occurs_in_subrange(enc, crlf2(), 0, c, j);
    }
    if c < sep + 4 {
        assert forall|j: int| !occurs_at(prefix, crlf2(), j) by {
            if occurs_at(prefix, crlf2(), j) {
                assert(occurs_at(enc, crlf2(), j));
                assert(j >= sep);
            }
        }
        lemma_find_spec_none(prefix, crlf2(), 0);
        assert(parse_front(prefix) is Incomplete);
    } else {
        assert(occurs_at(prefix, crlf2(), sep)) by {
            assert(prefix.subrange(sep, sep + 4) =~= enc.subrange(sep, sep + 4));
        }
        assert forall|j: int| 0 <= j < sep implies !occurs_at(prefix, crlf2(), j) by {
            if occurs_at(prefix, crlf2(), j) {
                assert(occurs_at(enc, crlf2(), j));
            }
        }
        lemma_find_spec_unique(prefix, crlf2(), 0, sep);
        assert(prefix.subrange(0, sep + 2) =~= enc.subrange(0, sep + 2));
        assert(enc.subrange(0, sep + 2) =~= join_lines(all));
        lemma_split_join(all);
        assert(split_lines(prefix.subrange(0, sep + 2)) == Some(all));
        assert(find_cl_index(all) == Some(0int)) by {
            assert(parse_cl_line(all[0]) is Some);
        }
        assert(parse_cl_line(all[0]) == Some(n));
        assert(prefix.len() < sep + 4 + n);
        assert(parse_front(prefix) is Incomplete);
    }
}

/// The byte stream of several messages, one encoding after the other.
pub open spec fn concat_encodings(ms: Seq<LspMsg>) -> Seq<u8>
    decreases ms.len(),
{
    if ms.len() == 0 {
        Seq::empty()
    } else {
        encode_msg(ms[0]) + concat_encodings(ms.skip(1))
    }
}

/// All messages of a sequence are well formed with machine-sized contents.
pub open spec fn wf_msgs(ms: Seq<LspMsg>) -> bool {
    forall|i: int|
        0 <= i < ms.len() ==> wf_msg(#[trigger] ms[i]) && ms[i].content.len() <= usize::MAX
}

/// Feeding the byte stream of any number of complete messages yields
/// exactly those messages, in order, with nothing retained.
pub proof fn lemma_drain_all(ms: Seq<LspMsg>)
    requires
        wf_msgs(ms),
    ensures
        drain_spec(concat_encodings(ms)) == (ms, Seq::<u8>::empty()),
    decreases ms.len(),
{
    if ms.len() == 0 {
        assert(parse_front(Seq::<u8>::empty()) == FrontParse::Incomplete);
        assert(drain_spec(Seq::<u8>::empty()).0 =~= ms);
    } else {
        let m0 = ms[0];
        let rest = concat_encodings(ms.skip(1));
        let buf = concat_encodings(ms);
        assert(buf == encode_msg(m0) + rest);
        lemma_parse_encode(m0, rest);
        let c = encode_msg(m0).len() as int;
        assert(parse_front(buf) == FrontParse::Parsed(m0, c));
        assert(c >= 4);
        assert(buf.subrange(c, buf.len() as int) =~= rest);
        assert(wf_msgs(ms.skip(1))) by {
            assert(forall|i: int|
                0 <= i < ms.len() - 1 ==> #[trigger] ms.skip(1)[i] == ms[i + 1]);
        }
        lemma_drain_all(ms.skip(1));
        assert(drain_spec(buf).0 =~= seq![m0] + ms.skip(1));
        assert(seq![m0] + ms.skip(1) =~= ms);
        assert(drain_spec(buf).1 == Seq::<u8>::empty());
        assert(drain_spec(buf) == (ms, Seq::<u8>::empty()));
    }
}

/// The outbound rewrite: every `distant://` in the content becomes
/// `file://`; the other header lines stay as they are, and the encoding
/// carries the rewritten content's exact byte length.
pub open spec fn rewrite_msg_out(m: LspMsg) -> LspMsg {
    LspMsg { others: m.others, content: replace_all(m.content, distant_scheme(), file_scheme()) }
}

/// The inbound rewrite: every `file://` in the content becomes
/// `distant://`.
pub open spec fn rewrite_msg_in(m: LspMsg) -> LspMsg {
    LspMsg { others: m.others, content: replace_all(m.content, file_scheme(), distant_scheme()) }
}

/// Scheme rewriting round-trips: for a message whose content does not
/// already hold `file://`, the inbound rewrite is the inverse of the
/// outbound rewrite, and their composition is the identity.
pub proof fn lemma_scheme_round_trip(m: LspMsg)
    requires
        !contains_seq(m.content, file_scheme()),
    ensures
        rewrite_msg_in(rewrite_msg_out(m)) == m,
{
    assert(forall|k: int|
        1 <= k < file_scheme().len() ==> #[trigger] file_scheme()[k] != file_scheme()[0]);
    lemma_replace_round_trip(m.content, distant_scheme(), file_scheme());
    assert(rewrite_msg_in(rewrite_msg_out(m)) =~= m);
}

/// The converse composition: for a message whose content does not already
/// hold `distant://`, rewriting inbound and then outbound is the identity.
pub proof fn lemma_scheme_round_trip_rev(m: LspMsg)
    requires
        !contains_seq(m.content, distant_scheme()),
    ensures
        rewrite_msg_out(rewrite_msg_in(m)) == m,
{
    assert(forall|k: int|
        1 <= k < distant_scheme().len() ==> #[trigger] distant_scheme()[k]
            != distant_scheme()[0]);
    lemma_replace_round_trip(m.content, file_scheme(), distant_scheme());
    assert(rewrite_msg_out(rewrite_msg_in(m)) =~= m);
}

/// Draining a buffer fed in two chunks yields, in total, exactly what
/// draining the concatenation yields: buffering loses nothing, reorders
/// nothing, and invents nothing.
pub proof fn lemma_drain_compose(a: Seq<u8>, b: Seq<u8>)
    ensures
        drain_spec(a + b).0 =~= drain_spec(a).0 + drain_spec(drain_spec(a).1 + b).0,
        drain_spec(a + b).1 == drain_spec(drain_spec(a).1 + b).1,
    decreases a.len(),
{
    lemma_parse_front_bounds(a);
    match parse_front(a) {
        FrontParse::Parsed(m, c) => {
            lemma_parse_front_stable(a, b);
            assert((a + b).subrange(c, (a + b).len() as int) =~= a.subrange(c, a.len() as int)
                + b);
            lemma_drain_compose(a.subrange(c, a.len() as int), b);
        },
        FrontParse::Incomplete => {
            assert(drain_spec(a).1 == a);
        },
        FrontParse::Malformed => {
            assert(drain_spec(a).1 == a);
        },
    }
}

/// The converse of `find_cl_index`'s characterization: the first parsing
/// line is what it returns.
proof fn lemma_find_cl_index_unique(ls: Seq<Seq<u8>>, i: int)
    requires
        0 <= i < ls.len(),
        parse_cl_line(ls[i]) is Some,
        forall|j: int| 0 <= j < i ==> parse_cl_line(#[trigger] ls[j]) is None,
    ensures
        find_cl_index(ls) == Some(i),
    decreases i,
{
    if i == 0 {
    } else {
        assert(parse_cl_line(ls[0]) is None);
        assert forall|j: int| 0 <= j < i - 1 implies parse_cl_line(
            #[trigger] ls.skip(1)[j],
        ) is None by {
            assert(ls.skip(1)[j] == ls[j + 1]);
        }
        assert(ls.skip(1)[i - 1] == ls[i]);
        lemma_find_cl_index_unique(ls.skip(1), i - 1);
    }
}

/// When no line parses as a content length, `find_cl_index` finds nothing.
proof fn lemma_find_cl_index_none(ls: Seq<Seq<u8>>)
    requires
        forall|j: int| 0 <= j < ls.len() ==> parse_cl_line(#[trigger] ls[j]) is None,
    ensures
        find_cl_index(ls) is None,
    decreases ls.len(),
{
    if ls.len() > 0 {
        assert forall|j: int| 0 <= j < ls.len() - 1 implies parse_cl_line(
            #[trigger] ls.skip(1)[j],
        ) is None by {
            assert(ls.skip(1)[j] == ls[j + 1]);
        }
        lemma_find_cl_index_none(ls.skip(1));
    }
}

/// Copies `buf[lo..hi]` into a fresh byte vector.
fn copy_range(buf: &[u8], lo: usize, hi: usize) -> (out: Vec<u8>)
    requires
        lo <= hi <= buf@.len(),
    ensures
        out@ == buf@.subrange(lo as int, hi as int),
{
    let mut out: Vec<u8> = Vec::new();
    let mut j: usize = lo;
    while j < hi
        invariant
            lo <= j <= hi <= buf@.len(),
            out@ == buf@.subrange(lo as int, j as int),
        decreases hi - j,
    {
        out.push(buf[j]);
        proof {
            assert(out@ =~= buf@.subrange(lo as int, j + 1 as int));
        }
        j = j + 1;
    }
    out
}

/// The line terminator as bytes.
fn crlf_pattern() -> (v: Vec<u8>)
    ensures
        v@ == crlf(),
{
    let mut v: Vec<u8> = Vec::new();
    v.push(13);
    v.push(10);
    proof {
        assert(v@ =~= crlf());
    }
    v
}

/// The header separator as bytes.
fn crlf2_pattern() -> (v: Vec<u8>)
    ensures
        v@ == crlf2(),
{
    let mut v: Vec<u8> = Vec::new();
    v.push(13);
    v.push(10);
    v.push(13);
    v.push(10);
    proof {
        assert(v@ =~= crlf2());
    }
    v
}

/// `Content-Length:` as bytes.
fn cl_prefix_pattern() -> (v: Vec<u8>)
    ensures
        v@ == content_length_prefix(),
{
    let mut v: Vec<u8> = Vec::new();
    v.push(67);
    v.push(111);
    v.push(110);
    v.push(116);
    v.push(101);
    v.push(110);
    v.push(116);
    v.push(45);
    v.push(76);
    v.push(101);
    v.push(110);
    v.push(103);
    v.push(116);
    v.push(104);
    v.push(58);
    proof {
        assert(v@ =~= content_length_prefix());
    }
    v
}

/// `distant://` as bytes.
fn distant_pattern() -> (v: Vec<u8>)
    ensures
        v@ == distant_scheme(),
{
    let mut v: Vec<u8> = Vec::new();
    v.push(100);
    v.push(105);
    v.push(115);
    v.push(116);
    v.push(97);
    v.push(110);
    v.push(116);
    v.push(58);
    v.push(47);
    v.push(47);
    proof {
        assert(v@ =~= distant_scheme());
    }
    v
}

/// `file://` as bytes.
fn file_pattern() -> (v: Vec<u8>)
    ensures
        v@ == file_scheme(),
{
    let mut v: Vec<u8> = Vec::new();
    v.push(102);
    v.push(105);
    v.push(108);
    v.push(101);
    v.push(58);
    v.push(47);
    v.push(47);
    proof {
        assert(v@ =~= file_scheme());
    }
    v
}

/// Dropping `k` leading spaces reaches the spaceless suffix.
proof fn lemma_skip_spaces_at(v: Seq<u8>, k: int)
    requires
        0 <= k <= v.len(),
        forall|j: int| 0 <= j < k ==> #[trigger] v[j] == 32u8,
        k == v.len() || v[k] != 32u8,
    ensures
        skip_spaces(v) == v.subrange(k, v.len() as int),
    decreases k,
{
    if k == 0 {
        assert(v.subrange(0, v.len() as int) =~= v);
    } else {
        assert(v[0] == 32u8);
        let w = v.skip(1);
        assert forall|j: int| 0 <= j < k - 1 implies #[trigger] w[j] == 32u8 by {
            assert(w[j] == v[j + 1]);
        }
        if k - 1 < w.len() {
            assert(w[k - 1] == v[k]);
        }
        lemma_skip_spaces_at(w, k - 1);
        assert(w.subrange(k - 1, w.len() as int) =~= v.subrange(k, v.len() as int));
    }
}

/// How a header line classifies as a content-length carrier.
pub enum ClLineClass {
    /// Not a content-length line.
    NotCl,
    /// A content-length line with this value.
    Cl(usize),
    /// A content-length line whose value exceeds the machine's sizes.
    ClHuge,
}

/// Classifies one header line against the content-length grammar.
#[verifier::rlimit(30)]
fn classify_cl_line(line: &[u8]) -> (r: ClLineClass)
    ensures
        match parse_cl_line(line@) {
            None => r is NotCl,
            Some(v) => if v <= usize::MAX {
                r matches ClLineClass::Cl(u) && u == v
            } else {
                r is ClHuge
            },
        },
{
    let prefix = cl_prefix_pattern();
    if line.len() < 15 {
        return ClLineClass::NotCl;
    }
    let mut j: usize = 0;
    while j < 15
        invariant
            j <= 15,
            line@.len() >= 15,
            prefix@ == content_length_prefix(),
            forall|t: int| 0 <= t < j ==> line@[t] == content_length_prefix()[t],
        decreases 15 - j,
    {
        if line[j] != prefix[j] {
            proof {
                assert(line@.subrange(0, 15)[j as int] != content_length_prefix()[j as int]);
            }
            return ClLineClass::NotCl;
        }
        j = j + 1;
    }
    proof {
        assert(line@.subrange(0, 15) =~= content_length_prefix());
    }
    let ghost v = line@.subrange(15, line@.len() as int);
    let mut i: usize = 15;
    while i < line.len() && line[i] == 32
        invariant
            15 <= i <= line@.len(),
            v == line@.subrange(15, line@.len() as int),
            forall|t: int| 0 <= t < i - 15 ==> #[trigger] v[t] == 32u8,
        decreases line@.len() - i,
    {
        proof {
            assert(v[i - 15] == line@[i as int]);
        }
        i = i + 1;
    }
    proof {
        if i < line.len() {
            assert(v[i - 15] == line@[i as int]);
        }
        lemma_skip_spaces_at(v, i - 15);
        assert(skip_spaces(v) =~= line@.subrange(i as int, line@.len() as int));
    }
    let ghost digits = line@.subrange(i as int, line@.len() as int);
    if i == line.len() {
        proof {
            assert(skip_spaces(v).len() == 0);
        }
        return ClLineClass::NotCl;
    }
    let start = i;
    let mut acc: usize = 0;
    let mut huge = false;
    let mut k: usize = start;
    while k < line.len()
        invariant
            15 <= start <= k <= line@.len(),
            start < line@.len(),
            line@.subrange(0, 15) == content_length_prefix(),
            skip_spaces(line@.subrange(15, line@.len() as int)) == digits,
            digits == line@.subrange(start as int, line@.len() as int),
            all_digits(digits.subrange(0, k - start)),
            !huge ==> acc == digits_val(digits.subrange(0, k - start)),
            huge ==> digits_val(digits.subrange(0, k - start)) > usize::MAX,
        decreases line@.len() - k,
    {
        let b = line[k];
        proof {
            assert(digits[k - start] == line@[k as int]);
        }
        if b < 48 || b > 57 {
            proof {
                assert(!is_digit(digits[k - start]));
                assert(!all_digits(digits));
            }
            return ClLineClass::NotCl;
        }
        let d = (b - 48) as usize;
        let ghost prev = digits.subrange(0, k - start);
        let ghost next = digits.subrange(0, k - start + 1);
        proof {
            assert(next.drop_last() =~= prev);
            assert(next.last() == digits[k - start]);
            assert(digits_val(next) == digits_val(prev) * 10 + d);
            assert forall|t: int| 0 <= t < next.len() implies is_digit(#[trigger] next[t]) by {
                if t < prev.len() {
                    assert(is_digit(prev[t]));
                }
            }
        }
        if huge {
            proof {
                assert(digits_val(next) > usize::MAX) by (nonlinear_arith)
                    requires
                        digits_val(prev) > usize::MAX,
                        digits_val(next) == digits_val(prev) * 10 + d,
                        d >= 0,
                ;
            }
        } else {
            if acc > (usize::MAX - d) / 10 {
                huge = true;
                proof {
                    assert(digits_val(next) > usize::MAX) by (nonlinear_arith)
                        requires
                            acc > (usize::MAX - d) / 10,
                            digits_val(prev) == acc,
                            digits_val(next) == digits_val(prev) * 10 + d,
                            0 <= d <= 9,
                    ;
                }
            } else {
                proof {
                    assert(acc * 10 + d <= usize::MAX) by (nonlinear_arith)
                        requires
                            acc <= (usize::MAX - d) / 10,
                            0 <= d <= 9,
                    ;
                }
                acc = acc * 10 + d;
            }
        }
        k = k + 1;
    }
    proof {
        assert(digits.subrange(0, digits.len() as int) =~= digits);
        assert(digits.len() >= 1);
    }
    if huge {
        ClLineClass::ClHuge
    } else {
        ClLineClass::Cl(acc)
    }
}

/// One parsed LSP message: the header lines other than the content-length
/// line, and the content bytes.
pub struct LspData {
    /// The header lines besides the content-length line, each without its
    /// terminator, in the order received.
    pub other_headers: Vec<Vec<u8>>,
    /// The content bytes.
    pub content: Vec<u8>,
}

impl LspData {
    /// The message this data stands for.
    pub open spec fn msg(&self) -> LspMsg {
        LspMsg {
            others: self.other_headers@.map_values(|l: Vec<u8>| l@),
            content: self.content@,
        }
    }
}

/// What parsing the front of a reassembly buffer produced.
pub enum ParseOutcome {
    /// No complete message yet.
    Incomplete,
    /// A header block without a usable content length.
    Malformed,
    /// One complete message and the count of bytes it occupied.
    Parsed(LspData, usize),
}

/// Parses the first complete message off the front of `buf`, without
/// consuming anything.
#[verifier::rlimit(60)]
pub fn try_parse_front(buf: &[u8]) -> (r: ParseOutcome)
    ensures
        match parse_front(buf@) {
            FrontParse::Incomplete => r is Incomplete,
            FrontParse::Malformed => r is Malformed,
            FrontParse::Parsed(m, c) => r matches ParseOutcome::Parsed(d, cc) && d.msg() == m
                && cc == c,
        },
{
    let c2 = crlf2_pattern();
    let sep: usize = match find_subseq(buf, c2.as_slice(), 0) {
        None => {
            proof {
                lemma_find_spec_none(buf@, crlf2(), 0);
            }
            return ParseOutcome::Incomplete;
        },
        Some(s) => s,
    };
    proof {
        lemma_find_spec_unique(buf@, crlf2(), 0, sep as int);
        assert(sep + 4 <= buf@.len());
    }
    let blen: usize = buf.len();
    let hend: usize = sep + 2;
    let ghost h = buf@.subrange(0, sep + 2 as int);
    let c1 = crlf_pattern();
    let mut lines: Vec<Vec<u8>> = Vec::new();
    let mut pos: usize = 0;
    proof {
        assert(h.subrange(0, h.len() as int) =~= h);
        assert(lines@.map_values(|l: Vec<u8>| l@) =~= Seq::<Seq<u8>>::empty());
    }
    while pos < hend
        invariant
            pos <= hend,
            hend == sep + 2,
            sep + 4 <= buf@.len(),
            buf@.len() == blen,
            find_spec(buf@, crlf2(), 0) == Some(sep as int),
            h == buf@.subrange(0, sep + 2 as int),
            c1@ == crlf(),
            match split_lines(h.subrange(pos as int, h.len() as int)) {
                Some(rest) => split_lines(h) == Some(
                    lines@.map_values(|l: Vec<u8>| l@) + rest,
                ),
                None => split_lines(h) is None,
            },
        decreases hend - pos,
    {
        let ghost hsuf = h.subrange(pos as int, h.len() as int);
        let ghost views0 = lines@.map_values(|l: Vec<u8>| l@);
        let eo = find_subseq(buf, c1.as_slice(), pos);
        let mut usable = false;
        let mut e: usize = 0;
        match eo {
            Some(found) => {
                if found + 2 <= hend {
                    usable = true;
                    e = found;
                }
            },
            None => {},
        }
        if !usable {
            proof {
                assert forall|j: int| !occurs_at(hsuf, crlf(), j) by {
                    if occurs_at(hsuf, crlf(), j) {
                        lemma_occurs_in_subrange(h, crlf(), pos as int, h.len() as int, j);
                        lemma_occurs_in_subrange(buf@, crlf(), 0, sep + 2 as int, pos + j);
                        assert(occurs_at(buf@, crlf(), pos + j));
                        assert(pos + j + 2 <= hend);
                        match eo {
                            Some(found) => {
                                assert(pos + j < found);
                            },
                            None => {},
                        }
                    }
                }
                lemma_find_spec_none(hsuf, crlf(), 0);
                assert(hsuf.len() > 0);
                assert(split_lines(hsuf) is None);
            }
            return ParseOutcome::Malformed;
        }
        proof {
            // The first terminator of the header suffix sits at e - pos.
            let rel = (e - pos) as int;
            assert(occurs_at(hsuf, crlf(), rel)) by {
                assert(hsuf.subrange(rel, rel + 2) =~= buf@.subrange(e as int, e + 2 as int));
                assert(buf@.subrange(e as int, e + 2 as int) == crlf());
            }
            assert forall|j: int| 0 <= j < rel implies !occurs_at(hsuf, crlf(), j) by {
                if occurs_at(hsuf, crlf(), j) {
                    lemma_occurs_in_subrange(h, crlf(), pos as int, h.len() as int, j);
                    lemma_occurs_in_subrange(buf@, crlf(), 0, sep + 2 as int, pos + j);
                    assert(occurs_at(buf@, crlf(), pos + j));
                }
            }
            lemma_find_spec_unique(hsuf, crlf(), 0, rel);
            assert(hsuf.subrange(0, rel) =~= buf@.subrange(pos as int, e as int));
            assert(hsuf.subrange(rel + 2, hsuf.len() as int) =~= h.subrange(
                e + 2 as int,
                h.len() as int,
            ));
        }
        let line = copy_range(buf, pos, e);
        lines.push(line);
        proof {
            assert(lines@.map_values(|l: Vec<u8>| l@) =~= views0.push(
                buf@.subrange(pos as int, e as int),
            ));
            let hnext = h.subrange(e + 2 as int, h.len() as int);
            match split_lines(hnext) {
                Some(rest) => {
                    assert(split_lines(hsuf) == Some(
                        seq![buf@.subrange(pos as int, e as int)] + rest,
                    ));
                    assert(views0 + (seq![buf@.subrange(pos as int, e as int)] + rest)
                        =~= views0.push(buf@.subrange(pos as int, e as int)) + rest);
                },
                None => {
                    assert(split_lines(hsuf) is None);
                },
            }
        }
        pos = e + 2;
    }
    let ghost all_views = lines@.map_values(|l: Vec<u8>| l@);
    proof {
        assert(h.subrange(pos as int, h.len() as int) =~= Seq::<u8>::empty());
        assert(split_lines(h) == Some(all_views + Seq::<Seq<u8>>::empty()));
        assert(all_views + Seq::<Seq<u8>>::empty() =~= all_views);
        assert(split_lines(h) == Some(all_views));
    }
    let mut ci: usize = 0;
    let mut value: usize = 0;
    let mut have_cl = false;
    let line_count = lines.len();
    while ci < line_count && !have_cl
        invariant
            ci <= line_count,
            line_count == lines@.len(),
            sep + 4 <= buf@.len(),
            buf@.len() == blen,
            find_spec(buf@, crlf2(), 0) == Some(sep as int),
            h == buf@.subrange(0, sep + 2 as int),
            split_lines(h) == Some(all_views),
            all_views == lines@.map_values(|l: Vec<u8>| l@),
            !have_cl ==> forall|j: int|
                0 <= j < ci ==> parse_cl_line(#[trigger] all_views[j]) is None,
            have_cl ==> ci < line_count && find_cl_index(all_views) == Some(ci as int)
                && parse_cl_line(all_views[ci as int]) == Some(value as int),
        decreases line_count - ci + (if have_cl { 0int } else { 1int }),
    {
        match classify_cl_line(lines[ci].as_slice()) {
            ClLineClass::NotCl => {
                ci = ci + 1;
            },
            ClLineClass::Cl(u) => {
                value = u;
                have_cl = true;
                proof {
                    lemma_find_cl_index_unique(all_views, ci as int);
                }
            },
            ClLineClass::ClHuge => {
                proof {
                    lemma_find_cl_index_unique(all_views, ci as int);
                }
                return ParseOutcome::Malformed;
            },
        }
    }
    if !have_cl {
        proof {
            lemma_find_cl_index_none(all_views);
        }
        return ParseOutcome::Malformed;
    }
    let n = value;
    let avail = buf.len() - (sep + 4);
    if n > avail {
        return ParseOutcome::Incomplete;
    }
    let content = copy_range(buf, sep + 4, sep + 4 + n);
    let mut others = lines;
    others.remove(ci);
    let consumed = sep + 4 + n;
    proof {
        assert(others@.map_values(|l: Vec<u8>| l@) =~= all_views.remove(ci as int));
        let m = LspMsg {
            others: all_views.remove(ci as int),
            content: buf@.subrange(sep + 4 as int, sep + 4 + n as int),
        };
        assert(parse_front(buf@) == FrontParse::Parsed(m, sep + 4 + n as int));
    }
    ParseOutcome::Parsed(LspData { other_headers: others, content }, consumed)
}

/// Appends all of `data` to `out`.
fn append_bytes(out: &mut Vec<u8>, data: &[u8])
    ensures
        final(out)@ == old(out)@ + data@,
{
    let mut j: usize = 0;
    while j < data.len()
        invariant
            j <= data@.len(),
            out@ == old(out)@ + data@.subrange(0, j as int),
        decreases data@.len() - j,
    {
        out.push(data[j]);
        proof {
            assert(out@ =~= old(out)@ + data@.subrange(0, j + 1 as int));
        }
        j = j + 1;
    }
    proof {
        assert(out@ =~= old(out)@ + data@);
    }
}

/// Appends the decimal digits of `n`, most significant first.
fn push_decimal(out: &mut Vec<u8>, n: usize)
    ensures
        final(out)@ == old(out)@ + dec_digits(n as int),
    decreases n,
{
    if n < 10 {
        out.push(48 + n as u8);
        proof {
            assert(out@ =~= old(out)@ + dec_digits(n as int));
        }
    } else {
        push_decimal(out, n / 10);
        out.push(48 + (n % 10) as u8);
        proof {
            assert(out@ =~= old(out)@ + dec_digits(n as int));
        }
    }
}

/// Adding one line to a header block appends its bytes and a terminator.
proof fn lemma_join_push(ls: Seq<Seq<u8>>, l: Seq<u8>)
    ensures
        join_lines(ls.push(l)) == join_lines(ls) + l + crlf(),
    decreases ls.len(),
{
    if ls.len() == 0 {
        assert(ls.push(l)[0] == l);
        assert(ls.push(l).skip(1) =~= Seq::<Seq<u8>>::empty());
        assert(join_lines(ls.push(l).skip(1)) == Seq::<u8>::empty());
        assert(join_lines(ls.push(l)) == l + crlf() + Seq::<u8>::empty());
        assert(join_lines(ls.push(l)) =~= join_lines(ls) + l + crlf());
    } else {
        assert(ls.push(l)[0] == ls[0]);
        assert(ls.push(l).skip(1) =~= ls.skip(1).push(l));
        lemma_join_push(ls.skip(1), l);
        assert(join_lines(ls.push(l)) == ls[0] + crlf() + join_lines(ls.skip(1).push(l)));
        assert(join_lines(ls) == ls[0] + crlf() + join_lines(ls.skip(1)));
        assert(join_lines(ls.push(l)) =~= join_lines(ls) + l + crlf());
    }
}

impl LspData {
    /// Serializes the message: the content-length line carrying the
    /// content's exact byte length, the other header lines, the blank
    /// line, the content.
    pub fn to_bytes(&self) -> (out: Vec<u8>)
        ensures
            out@ == encode_msg(self.msg()),
    {
        let ghost views = self.other_headers@.map_values(|l: Vec<u8>| l@);
        let mut out = cl_prefix_pattern();
        out.push(32);
        push_decimal(&mut out, self.content.len());
        out.push(13);
        out.push(10);
        let ghost base = out@;
        proof {
            assert(base =~= content_length_prefix() + seq![32u8] + dec_digits(
                self.content@.len() as int,
            ) + crlf());
            assert(views.take(0) =~= Seq::<Seq<u8>>::empty());
            assert(out@ =~= base + join_lines(views.take(0)));
        }
        let mut i: usize = 0;
        while i < self.other_headers.len()
            invariant
                i <= self.other_headers@.len(),
                views == self.other_headers@.map_values(|l: Vec<u8>| l@),
                out@ == base + join_lines(views.take(i as int)),
            decreases self.other_headers@.len() - i,
        {
            append_bytes(&mut out, self.other_headers[i].as_slice());
            out.push(13);
            out.push(10);
            proof {
                lemma_join_push(views.take(i as int), views[i as int]);
                assert(views.take(i + 1 as int) =~= views.take(i as int).push(
                    views[i as int],
                ));
                assert(out@ =~= base + join_lines(views.take(i + 1 as int)));
            }
            i = i + 1;
        }
        proof {
            assert(views.take(views.len() as int) =~= views);
        }
        out.push(13);
        out.push(10);
        append_bytes(&mut out, self.content.as_slice());
        proof {
            assert(out@ =~= encode_msg(self.msg()));
        }
        out
    }
}

/// The bytes forwarded to the client for a run of messages read from the
/// process: each message rewritten inbound and re-encoded, one after the
/// other.
pub open spec fn inbound_output(ms: Seq<LspMsg>) -> Seq<u8>
    decreases ms.len(),
{
    if ms.len() == 0 {
        Seq::empty()
    } else {
        encode_msg(rewrite_msg_in(ms[0])) + inbound_output(ms.skip(1))
    }
}

/// One more message appends its rewritten encoding.
proof fn lemma_inbound_output_push(ms: Seq<LspMsg>, m: LspMsg)
    ensures
        inbound_output(ms.push(m)) == inbound_output(ms) + encode_msg(rewrite_msg_in(m)),
    decreases ms.len(),
{
    if ms.len() == 0 {
        assert(ms.push(m)[0] == m);
        assert(ms.push(m).skip(1) =~= Seq::<LspMsg>::empty());
        assert(inbound_output(ms.push(m).skip(1)) == Seq::<u8>::empty());
        assert(inbound_output(ms.push(m)) == encode_msg(rewrite_msg_in(m))
            + Seq::<u8>::empty());
        assert(inbound_output(ms.push(m)) =~= inbound_output(ms) + encode_msg(
            rewrite_msg_in(m),
        ));
    } else {
        assert(ms.push(m)[0] == ms[0]);
        assert(ms.push(m).skip(1) =~= ms.skip(1).push(m));
        lemma_inbound_output_push(ms.skip(1), m);
        assert(inbound_output(ms.push(m)) == encode_msg(rewrite_msg_in(ms[0]))
            + inbound_output(ms.skip(1).push(m)));
        assert(inbound_output(ms) == encode_msg(rewrite_msg_in(ms[0])) + inbound_output(
            ms.skip(1),
        ));
        assert(inbound_output(ms.push(m)) =~= inbound_output(ms) + encode_msg(
            rewrite_msg_in(m),
        ));
    }
}

/// A handle to a remote LSP process' standard input: buffers written bytes
/// until complete messages can be cut, rewrites `distant://` to `file://`
/// in each, and hands the re-encoded messages on.
pub struct RemoteLspStdin {
    buf: Vec<u8>,
}

/// A handle to a remote LSP process' standard output: buffers read bytes
/// until complete messages can be cut, rewrites `file://` to `distant://`
/// in each, and yields the re-encoded messages as one byte string.
pub struct RemoteLspStdout {
    buf: Vec<u8>,
}

/// A handle to a remote LSP process' standard error, reframed exactly as
/// standard output is.
pub struct RemoteLspStderr {
    buf: Vec<u8>,
}

impl RemoteLspStdin {
    /// The bytes buffered and not yet cut into messages.
    pub closed spec fn buffered(&self) -> Seq<u8> {
        self.buf@
    }

    /// A fresh handle with an empty buffer.
    pub fn new() -> (s: Self)
        ensures
            s.buffered() == Seq::<u8>::empty(),
    {
        RemoteLspStdin { buf: Vec::new() }
    }

    /// Buffers `data`, cuts every complete message now present, rewrites
    /// each outbound, and returns the messages to send, in order; the
    /// remainder stays buffered.
    pub fn write(&mut self, data: &[u8]) -> (out: Vec<Vec<u8>>)
        ensures
            ({
                let drained = drain_spec(old(self).buffered() + data@);
                &&& final(self).buffered() == drained.1
                &&& out@.len() == drained.0.len()
                &&& forall|i: int|
                    0 <= i < drained.0.len() ==> out@[i]@ == encode_msg(
                        rewrite_msg_out(#[trigger] drained.0[i]),
                    )
            }),
    {
        let mut cur: Vec<u8> = Vec::new();
        core::mem::swap(&mut cur, &mut self.buf);
        append_bytes(&mut cur, data);
        let ghost full = cur@;
        let dpat = distant_pattern();
        let fpat = file_pattern();
        let mut out: Vec<Vec<u8>> = Vec::new();
        let ghost mut done: Seq<LspMsg> = Seq::empty();
        proof {
            assert(drain_spec(full).0 =~= done + drain_spec(cur@).0);
        }
        loop
            invariant
                full == old(self).buffered() + data@,
                dpat@ == distant_scheme(),
                fpat@ == file_scheme(),
                drain_spec(full).0 == done + drain_spec(cur@).0,
                drain_spec(full).1 == drain_spec(cur@).1,
                out@.len() == done.len(),
                forall|i: int|
                    0 <= i < done.len() ==> out@[i]@ == encode_msg(
                        rewrite_msg_out(#[trigger] done[i]),
                    ),
            decreases cur@.len(),
        {
            let ghost cur0 = cur@;
            match try_parse_front(cur.as_slice()) {
                ParseOutcome::Parsed(d, c) => {
                    proof {
                        lemma_parse_front_bounds(cur0);
                    }
                    let rest = copy_range(cur.as_slice(), c, cur.len());
                    let new_content = replace_all_bytes(
                        d.content.as_slice(),
                        dpat.as_slice(),
                        fpat.as_slice(),
                    );
                    let rd = LspData { other_headers: d.other_headers, content: new_content };
                    let ghost m = parse_front(cur0)->Parsed_0;
                    proof {
                        assert(rd.msg() =~= rewrite_msg_out(m));
                    }
                    let encoded = rd.to_bytes();
                    out.push(encoded);
                    cur = rest;
                    proof {
                        assert(cur0.subrange(c as int, cur0.len() as int) =~= cur@);
                        assert(drain_spec(cur0).0 == seq![m] + drain_spec(cur@).0);
                        assert(done + (seq![m] + drain_spec(cur@).0) =~= done.push(m)
                            + drain_spec(cur@).0);
                        done = done.push(m);
                    }
                },
                _ => {
                    self.buf = cur;
                    return out;
                },
            }
        }
    }
}

impl RemoteLspStdout {
    /// The bytes buffered and not yet cut into messages.
    pub closed spec fn buffered(&self) -> Seq<u8> {
        self.buf@
    }

    /// A fresh handle with an empty buffer.
    pub fn new() -> (s: Self)
        ensures
            s.buffered() == Seq::<u8>::empty(),
    {
        RemoteLspStdout { buf: Vec::new() }
    }

    /// Buffers `data`, cuts every complete message now present, rewrites
    /// each inbound, and returns the re-encoded messages as one byte
    /// string; the remainder stays buffered.
    pub fn read(&mut self, data: &[u8]) -> (out: Vec<u8>)
        ensures
            ({
                let drained = drain_spec(old(self).buffered() + data@);
                &&& final(self).buffered() == drained.1
                &&& out@ == inbound_output(drained.0)
            }),
    {
        let mut cur: Vec<u8> = Vec::new();
        core::mem::swap(&mut cur, &mut self.buf);
        append_bytes(&mut cur, data);
        let ghost full = cur@;
        let fpat = file_pattern();
        let dpat = distant_pattern();
        let mut out: Vec<u8> = Vec::new();
        let ghost mut done: Seq<LspMsg> = Seq::empty();
        proof {
            assert(drain_spec(full).0 =~= done + drain_spec(cur@).0);
            assert(out@ =~= inbound_output(done));
        }
        loop
            invariant
                full == old(self).buffered() + data@,
                dpat@ == distant_scheme(),
                fpat@ == file_scheme(),
                drain_spec(full).0 == done + drain_spec(cur@).0,
                drain_spec(full).1 == drain_spec(cur@).1,
                out@ == inbound_output(done),
            decreases cur@.len(),
        {
            let ghost cur0 = cur@;
            match try_parse_front(cur.as_slice()) {
                ParseOutcome::Parsed(d, c) => {
                    proof {
                        lemma_parse_front_bounds(cur0);
                    }
                    let rest = copy_range(cur.as_slice(), c, cur.len());
                    let new_content = replace_all_bytes(
                        d.content.as_slice(),
                        fpat.as_slice(),
                        dpat.as_slice(),
                    );
                    let rd = LspData { other_headers: d.other_headers, content: new_content };
                    let ghost m = parse_front(cur0)->Parsed_0;
                    proof {
                        assert(rd.msg() =~= rewrite_msg_in(m));
                    }
                    let encoded = rd.to_bytes();
                    append_bytes(&mut out, encoded.as_slice());
                    cur = rest;
                    proof {
                        assert(cur0.subrange(c as int, cur0.len() as int) =~= cur@);
                        assert(drain_spec(cur0).0 == seq![m] + drain_spec(cur@).0);
                        assert(done + (seq![m] + drain_spec(cur@).0) =~= done.push(m)
                            + drain_spec(cur@).0);
                        lemma_inbound_output_push(done, m);
                        done = done.push(m);
                    }
                },
                _ => {
                    self.buf = cur;
                    return out;
                },
            }
        }
    }
}

impl RemoteLspStderr {
    /// The bytes buffered and not yet cut into messages.
    pub closed spec fn buffered(&self) -> Seq<u8> {
        self.buf@
    }

    /// A fresh handle with an empty buffer.
    pub fn new() -> (s: Self)
        ensures
            s.buffered() == Seq::<u8>::empty(),
    {
        RemoteLspStderr { buf: Vec::new() }
    }

    /// Buffers `data` and reframes it, exactly as standard output is read.
    pub fn read(&mut self, data: &[u8]) -> (out: Vec<u8>)
        ensures
            ({
                let drained = drain_spec(old(self).buffered() + data@);
                &&& final(self).buffered() == drained.1
                &&& out@ == inbound_output(drained.0)
            }),
    {
        let mut cur: Vec<u8> = Vec::new();
        core::mem::swap(&mut cur, &mut self.buf);
        append_bytes(&mut cur, data);
        let ghost full = cur@;
        let fpat = file_pattern();
        let dpat = distant_pattern();
        let mut out: Vec<u8> = Vec::new();
        let ghost mut done: Seq<LspMsg> = Seq::empty();
        proof {
            assert(drain_spec(full).0 =~= done + drain_spec(cur@).0);
            assert(out@ =~= inbound_output(done));
        }
        loop
            invariant
                full == old(self).buffered() + data@,
                dpat@ == distant_scheme(),
                fpat@ == file_scheme(),
                drain_spec(full).0 == done + drain_spec(cur@).0,
                drain_spec(full).1 == drain_spec(cur@).1,
                out@ == inbound_output(done),
            decreases cur@.len(),
        {
            let ghost cur0 = cur@;
            match try_parse_front(cur.as_slice()) {
                ParseOutcome::Parsed(d, c) => {
                    proof {
                        lemma_parse_front_bounds(cur0);
                    }
                    let rest = copy_range(cur.as_slice(), c, cur.len());
                    let new_content = replace_all_bytes(
                        d.content.as_slice(),
                        fpat.as_slice(),
                        dpat.as_slice(),
                    );
                    let rd = LspData { other_headers: d.other_headers, content: new_content };
                    let ghost m = parse_front(cur0)->Parsed_0;
                    proof {
                        assert(rd.msg() =~= rewrite_msg_in(m));
                    }
                    let encoded = rd.to_bytes();
                    append_bytes(&mut out, encoded.as_slice());
                    cur = rest;
                    proof {
                        assert(cur0.subrange(c as int, cur0.len() as int) =~= cur@);
                        assert(drain_spec(cur0).0 == seq![m] + drain_spec(cur@).0);
                        assert(done + (seq![m] + drain_spec(cur@).0) =~= done.push(m)
                            + drain_spec(cur@).0);
                        lemma_inbound_output_push(done, m);
                        done = done.push(m);
                    }
                },
                _ => {
                    self.buf = cur;
                    return out;
                },
            }
        }
    }
}

/// An LSP server process on a remote machine: its stdio handles, each
/// reframing its direction of the byte stream.
pub struct RemoteLspProcess {
    /// The reframing handle for the process' standard input, until taken.
    pub stdin: Option<RemoteLspStdin>,
    /// The reframing handle for the process' standard output, until taken.
    pub stdout: Option<RemoteLspStdout>,
    /// The reframing handle for the process' standard error, until taken.
    pub stderr: Option<RemoteLspStderr>,
}

impl RemoteLspProcess {
    /// Fresh reframing handles for all three stdio directions.
    pub fn new() -> (p: Self)
        ensures
            p.stdin matches Some(s) && s.buffered() == Seq::<u8>::empty(),
            p.stdout matches Some(s) && s.buffered() == Seq::<u8>::empty(),
            p.stderr matches Some(s) && s.buffered() == Seq::<u8>::empty(),
    {
        RemoteLspProcess {
            stdin: Some(RemoteLspStdin::new()),
            stdout: Some(RemoteLspStdout::new()),
            stderr: Some(RemoteLspStderr::new()),
        }
    }
}

} // verus!
