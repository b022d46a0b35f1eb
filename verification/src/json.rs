//! A JSON reader for the documents the library consumes: image indexes,
//! image manifests, build-tool event lines and the deploy handoff file.
//!
//! Values are parsed into the [`Json`] tree. Object members are kept in
//! document order; string contents are unescaped to raw UTF-8 bytes.
//! Numbers are restricted to non-negative integers that fit in `u64` --
//! the only numbers the supported documents hold; anything else is
//! rejected as malformed.
//!
//! The grammar the reader accepts is written down as the [`json_repr`]
//! relation between byte ranges and values, and the reader is proved
//! sound against it: whatever it returns represents the bytes. Of a
//! rejected document no completeness claim is made.

use vstd::prelude::*;

verus! {

/// A parsed JSON value.
pub enum Json {
    Null,
    Bool(bool),
    UInt(u64),
    Text(Vec<u8>),
    Arr(Vec<Json>),
    Obj(Vec<(Vec<u8>, Json)>),
}

/// A parse failure, with the byte offset at which it was detected.
#[derive(Debug)]
pub struct JsonError {
    pub at: usize,
}

/// True for the JSON whitespace bytes: space, tab, line feed, carriage
/// return.
pub open spec fn is_ws(b: u8) -> bool {
    b == 32 || b == 9 || b == 10 || b == 13
}

fn ws_byte(b: u8) -> (r: bool)
    ensures
        r == is_ws(b),
{
    b == 32 || b == 9 || b == 10 || b == 13
}

/// A decimal digit byte.
pub open spec fn is_digit(b: u8) -> bool {
    48 <= b <= 57
}

/// The value of a most-significant-first digit span.
pub open spec fn digits_val(s: Seq<u8>, a: int, b: int) -> int
    decreases b - a,
{
    if b <= a {
        0
    } else {
        digits_val(s, a, b - 1) * 10 + (s[b - 1] - 48)
    }
}

/// The byte range `[a, b)` holds only whitespace.
pub open spec fn ws_span(s: Seq<u8>, a: int, b: int) -> bool {
    0 <= a <= b <= s.len() && forall|i: int| a <= i < b ==> is_ws(s[i])
}

/// The value of a hex digit byte, or a negative number for any other
/// byte.
pub open spec fn hexv(b: u8) -> int {
    if 48 <= b <= 57 {
        b - 48
    } else if 97 <= b <= 102 {
        b - 87
    } else if 65 <= b <= 70 {
        b - 55
    } else {
        -1
    }
}

/// Four hex digits stand at `a`.
pub open spec fn hex4_at(s: Seq<u8>, a: int) -> bool {
    0 <= a && a + 4 <= s.len() && hexv(s[a]) >= 0 && hexv(s[a + 1]) >= 0 && hexv(s[a + 2]) >= 0
        && hexv(s[a + 3]) >= 0
}

/// The value of the four hex digits at `a`.
pub open spec fn hex4_val(s: Seq<u8>, a: int) -> int {
    hexv(s[a]) * 4096 + hexv(s[a + 1]) * 256 + hexv(s[a + 2]) * 16 + hexv(s[a + 3])
}

/// The UTF-8 encoding of a scalar value.
pub open spec fn utf8_enc(cp: int) -> Seq<u8> {
    if cp < 0x80 {
        seq![cp as u8]
    } else if cp < 0x800 {
        seq![(0xC0 + cp / 0x40) as u8, (0x80 + cp % 0x40) as u8]
    } else if cp < 0x10000 {
        seq![
            (0xE0 + cp / 0x1000) as u8,
            (0x80 + (cp / 0x40) % 0x40) as u8,
            (0x80 + cp % 0x40) as u8,
        ]
    } else {
        seq![
            (0xF0 + cp / 0x40000) as u8,
            (0x80 + (cp / 0x1000) % 0x40) as u8,
            (0x80 + (cp / 0x40) % 0x40) as u8,
            (0x80 + cp % 0x40) as u8,
        ]
    }
}

/// What one simple escape decodes to.
pub open spec fn simple_escape(e: u8, t: Seq<u8>) -> bool {
    ((e == 34 || e == 92 || e == 47) && t == seq![e]) || (e == 98 && t == seq![8u8]) || (e == 102
        && t == seq![12u8]) || (e == 110 && t == seq![10u8]) || (e == 114 && t == seq![13u8]) || (
    e == 116 && t == seq![9u8])
}

/// One decoded piece of a string body at `[a, e)`: a raw byte, a
/// simple escape, a `\u` scalar, or a surrogate pair.
pub open spec fn chunk_repr(s: Seq<u8>, a: int, e: int, t: Seq<u8>) -> bool {
    &&& 0 <= a < e <= s.len()
    &&& ((e == a + 1 && s[a] != 34 && s[a] != 92 && s[a] >= 32 && t == seq![s[a]]) || (e == a + 2
        && s[a] == 92 && simple_escape(s[a + 1], t)) || (e == a + 6 && s[a] == 92 && s[a + 1]
        == 117 && hex4_at(s, a + 2) && !(0xD800 <= hex4_val(s, a + 2) < 0xE000) && t == utf8_enc(
        hex4_val(s, a + 2),
    )) || (e == a + 12 && s[a] == 92 && s[a + 1] == 117 && hex4_at(s, a + 2) && s[a + 6] == 92
        && s[a + 7] == 117 && hex4_at(s, a + 8) && 0xD800 <= hex4_val(s, a + 2) < 0xDC00 && 0xDC00
        <= hex4_val(s, a + 8) < 0xE000 && t == utf8_enc(
        0x10000 + (hex4_val(s, a + 2) - 0xD800) * 0x400 + (hex4_val(s, a + 8) - 0xDC00),
    )))
}

/// A string body at `[a, b)` decoding to `t`: a sequence of pieces.
pub open spec fn body_repr(s: Seq<u8>, a: int, b: int, t: Seq<u8>) -> bool
    decreases b - a, 0int,
{
    if b <= a {
        a == b && t == Seq::<u8>::empty()
    } else {
        exists|m: int, u: Seq<u8>, c: Seq<u8>|
            #![trigger chunk_repr(s, m, b, c), u.add(c)]
            a <= m < b && t == u + c && body_repr(s, a, m, u) && chunk_repr(s, m, b, c)
    }
}

/// A quoted string at `[a, b)` decoding to `t`.
pub open spec fn str_repr(s: Seq<u8>, a: int, b: int, t: Seq<u8>) -> bool {
    b >= a + 2 && 0 <= a && b <= s.len() && s[a] == 34 && s[b - 1] == 34 && body_repr(
        s,
        a + 1,
        b - 1,
        t,
    )
}

/// A body extends by one piece.
proof fn lemma_body_extend(s: Seq<u8>, a: int, m: int, b: int, u: Seq<u8>, c: Seq<u8>)
    requires
        a <= m < b,
        body_repr(s, a, m, u),
        chunk_repr(s, m, b, c),
    ensures
        body_repr(s, a, b, u + c),
{
    let t = u + c;
    reveal_with_fuel(body_repr, 2);
    assert(a <= m < b && t == u + c && body_repr(s, a, m, u) && chunk_repr(s, m, b, c));
    assert(body_repr(s, a, b, t));
}

/// A JSON value spelled at exactly the byte range `[a, b)`: the
/// grammar the reader accepts, related to the value it yields.
pub open spec fn json_repr(s: Seq<u8>, a: int, b: int, v: Json) -> bool
    decreases b - a, 1int,
{
    &&& 0 <= a < b <= s.len()
    &&& match v {
        Json::Null => b == a + 4 && s[a] == 110 && s[a + 1] == 117 && s[a + 2] == 108 && s[a + 3]
            == 108,
        Json::Bool(w) => if w {
            b == a + 4 && s[a] == 116 && s[a + 1] == 114 && s[a + 2] == 117 && s[a + 3] == 101
        } else {
            b == a + 5 && s[a] == 102 && s[a + 1] == 97 && s[a + 2] == 108 && s[a + 3] == 115 && s[
                a + 4] == 101
        },
        Json::UInt(n) => (forall|i: int| a <= i < b ==> is_digit(s[i])) && digits_val(s, a, b)
            == n && (b == s.len() || !is_digit(s[b])),
        Json::Text(t) => str_repr(s, a, b, t@),
        Json::Arr(items) => s[a] == 91 && s[b - 1] == 93 && exists|p2: int|
            #![trigger ws_span(s, p2, b - 1)]
            a + 1 <= p2 <= b - 1 && arr_items_repr(s, a + 1, p2, items@) && ws_span(s, p2, b - 1),
        Json::Obj(members) => s[a] == 123 && s[b - 1] == 125 && exists|p2: int|
            #![trigger ws_span(s, p2, b - 1)]
            a + 1 <= p2 <= b - 1 && obj_items_repr(s, a + 1, p2, members@) && ws_span(
                s,
                p2,
                b - 1,
            ),
    }
}

/// Array items spelled from `a` to `p`: each preceded by whitespace,
/// items after the first also by a comma.
pub open spec fn arr_items_repr(s: Seq<u8>, a: int, p: int, items: Seq<Json>) -> bool
    decreases p - a, 3int + items.len(),
{
    if items.len() == 0 {
        p == a
    } else if items.len() == 1 {
        exists|q: int| #![trigger ws_span(s, a, q)]
            a <= q < p && ws_span(s, a, q) && json_repr(s, q, p, items[0])
    } else {
        exists|m: int, q1: int, q2: int|
            #![trigger ws_span(s, m, q1), ws_span(s, q1 + 1, q2)]
            a <= m && m <= q1 && q1 + 1 <= q2 && q2 < p && q1 < s.len() && arr_items_repr(
                s,
                a,
                m,
                items.drop_last(),
            ) && ws_span(s, m, q1) && s[q1] == 44 && ws_span(s, q1 + 1, q2) && json_repr(
                s,
                q2,
                p,
                items.last(),
            )
    }
}

/// One object member spelled at `[a, p)`: its key string, a colon,
/// and its value, with whitespace around the colon.
pub open spec fn member_repr(s: Seq<u8>, a: int, p: int, kv: (Vec<u8>, Json)) -> bool
    decreases p - a, 2int,
{
    exists|k1: int, q2: int, q3: int|
        #![trigger ws_span(s, k1, q2), ws_span(s, q2 + 1, q3)]
        a + 2 <= k1 && k1 <= q2 && q2 + 1 <= q3 && q3 < p && q2 < s.len() && str_repr(
            s,
            a,
            k1,
            kv.0@,
        ) && ws_span(s, k1, q2) && s[q2] == 58 && ws_span(s, q2 + 1, q3) && json_repr(
            s,
            q3,
            p,
            kv.1,
        )
}

/// Object members spelled from `a` to `p`: each preceded by
/// whitespace, members after the first also by a comma.
pub open spec fn obj_items_repr(s: Seq<u8>, a: int, p: int, members: Seq<(Vec<u8>, Json)>) -> bool
    decreases p - a, 3int + members.len(),
{
    if members.len() == 0 {
        p == a
    } else if members.len() == 1 {
        exists|q: int| #![trigger ws_span(s, a, q)]
            a <= q < p && ws_span(s, a, q) && member_repr(s, q, p, members[0])
    } else {
        exists|m: int, q1: int, q2: int|
            #![trigger ws_span(s, m, q1), ws_span(s, q1 + 1, q2)]
            a <= m && m <= q1 && q1 + 1 <= q2 && q2 < p && q1 < s.len() && obj_items_repr(
                s,
                a,
                m,
                members.drop_last(),
            ) && ws_span(s, m, q1) && s[q1] == 44 && ws_span(s, q1 + 1, q2) && member_repr(
                s,
                q2,
                p,
                members.last(),
            )
    }
}

/// A whole document: one value with nothing but whitespace around it.
pub open spec fn doc_repr(s: Seq<u8>, v: Json) -> bool {
    exists|a: int, b: int| #![trigger ws_span(s, 0, a), ws_span(s, b, s.len() as int)]
        ws_span(s, 0, a) && json_repr(s, a, b, v) && ws_span(s, b, s.len() as int)
}

/// Advances past whitespace.
fn skip_ws(s: &[u8], pos: usize) -> (r: usize)
    requires
        pos <= s@.len(),
    ensures
        pos <= r <= s@.len(),
        r < s@.len() ==> !is_ws(s@[r as int]),
        forall|j: int| pos <= j < r ==> is_ws(s@[j]),
        ws_span(s@, pos as int, r as int),
{
    let mut p: usize = pos;
    while p < s.len() && ws_byte(s[p])
        invariant
            pos <= p <= s@.len(),
            forall|j: int| pos <= j < p ==> is_ws(s@[j]),
        decreases s@.len() - p,
    {
        p = p + 1;
    }
    p
}

/// The value of an ASCII hex digit, if the byte is one.
fn hex_val(b: u8) -> (r: Option<u8>)
    ensures
        match r {
            Some(v) => v < 16 && hexv(b) == v,
            None => hexv(b) < 0,
        },
{
    if 48 <= b && b <= 57 {
        Some(b - 48)
    } else if 97 <= b && b <= 102 {
        Some(b - 87)
    } else if 65 <= b && b <= 70 {
        Some(b - 55)
    } else {
        None
    }
}

/// Appends the UTF-8 encoding of the scalar value `cp`.
fn push_utf8(out: &mut Vec<u8>, cp: u32)
    requires
        cp < 0x110000,
    ensures
        final(out)@ == old(out)@ + utf8_enc(cp as int),
{
    if cp < 0x80 {
        out.push(cp as u8);
        proof {
            assert(out@ =~= old(out)@ + utf8_enc(cp as int));
        }
    } else if cp < 0x800 {
        out.push((0xC0 + cp / 0x40) as u8);
        out.push((0x80 + cp % 0x40) as u8);
        proof {
            assert(out@ =~= old(out)@ + utf8_enc(cp as int));
        }
    } else if cp < 0x10000 {
        out.push((0xE0 + cp / 0x1000) as u8);
        out.push((0x80 + (cp / 0x40) % 0x40) as u8);
        out.push((0x80 + cp % 0x40) as u8);
        proof {
            assert(out@ =~= old(out)@ + utf8_enc(cp as int));
        }
    } else {
        out.push((0xF0 + cp / 0x40000) as u8);
        out.push((0x80 + (cp / 0x1000) % 0x40) as u8);
        out.push((0x80 + (cp / 0x40) % 0x40) as u8);
        out.push((0x80 + cp % 0x40) as u8);
        proof {
            assert(out@ =~= old(out)@ + utf8_enc(cp as int));
        }
    }
}

/// Reads the four hex digits of a `\u` escape starting at `pos`.
fn parse_hex4(s: &[u8], pos: usize) -> (r: Result<(u32, usize), JsonError>)
    requires
        pos <= s@.len(),
    ensures
        r matches Ok((v, end)) ==> end == pos + 4 && end <= s@.len() && v < 0x10000 && hex4_at(
            s@,
            pos as int,
        ) && v == hex4_val(s@, pos as int),
{
    let n = s.len();
    if n < 4 || pos > n - 4 {
        return Err(JsonError { at: pos });
    }
    let d0 = match hex_val(s[pos]) {
        Some(d) => d,
        None => {
            return Err(JsonError { at: pos });
        },
    };
    let d1 = match hex_val(s[pos + 1]) {
        Some(d) => d,
        None => {
            return Err(JsonError { at: pos + 1 });
        },
    };
    let d2 = match hex_val(s[pos + 2]) {
        Some(d) => d,
        None => {
            return Err(JsonError { at: pos + 2 });
        },
    };
    let d3 = match hex_val(s[pos + 3]) {
        Some(d) => d,
        None => {
            return Err(JsonError { at: pos + 3 });
        },
    };
    let v: u32 = (d0 as u32) * 4096 + (d1 as u32) * 256 + (d2 as u32) * 16 + (d3 as u32);
    Ok((v, pos + 4))
}

/// Reads a string body; `pos` points at the opening quote.
#[verifier::rlimit(60)]
fn parse_string(s: &[u8], pos: usize) -> (r: Result<(Vec<u8>, usize), JsonError>)
    requires
        pos < s@.len(),
        s@[pos as int] == 34,
    ensures
        r matches Ok((t, end)) ==> pos < end <= s@.len() && str_repr(
            s@,
            pos as int,
            end as int,
            t@,
        ),
{
    let n = s.len();
    let mut out: Vec<u8> = Vec::new();
    let mut p: usize = pos + 1;
    loop
        invariant
            pos < p <= s@.len(),
            n == s@.len(),
            s@[pos as int] == 34,
            body_repr(s@, pos + 1, p as int, out@),
        decreases s@.len() - p,
    {
        if p >= n {
            return Err(JsonError { at: p });
        }
        let c = s[p];
        if c == 34 {
            proof {
                assert(str_repr(s@, pos as int, p + 1, out@));
            }
            return Ok((out, p + 1));
        } else if c == 92 {
            if p + 1 >= n {
                return Err(JsonError { at: p });
            }
            let e = s[p + 1];
            let ghost u = out@;
            if e == 34 || e == 92 || e == 47 {
                out.push(e);
                proof {
                    assert(chunk_repr(s@, p as int, p + 2, seq![e]));
                    lemma_body_extend(s@, pos + 1, p as int, p + 2, u, seq![e]);
                    assert(out@ =~= u + seq![e]);
                }
                p = p + 2;
            } else if e == 98 {
                out.push(8);
                proof {
                    assert(chunk_repr(s@, p as int, p + 2, seq![8u8]));
                    lemma_body_extend(s@, pos + 1, p as int, p + 2, u, seq![8u8]);
                    assert(out@ =~= u + seq![8u8]);
                }
                p = p + 2;
            } else if e == 102 {
                out.push(12);
                proof {
                    assert(chunk_repr(s@, p as int, p + 2, seq![12u8]));
                    lemma_body_extend(s@, pos + 1, p as int, p + 2, u, seq![12u8]);
                    assert(out@ =~= u + seq![12u8]);
                }
                p = p + 2;
            } else if e == 110 {
                out.push(10);
                proof {
                    assert(chunk_repr(s@, p as int, p + 2, seq![10u8]));
                    lemma_body_extend(s@, pos + 1, p as int, p + 2, u, seq![10u8]);
                    assert(out@ =~= u + seq![10u8]);
                }
                p = p + 2;
            } else if e == 114 {
                out.push(13);
                proof {
                    assert(chunk_repr(s@, p as int, p + 2, seq![13u8]));
                    lemma_body_extend(s@, pos + 1, p as int, p + 2, u, seq![13u8]);
                    assert(out@ =~= u + seq![13u8]);
                }
                p = p + 2;
            } else if e == 116 {
                out.push(9);
                proof {
                    assert(chunk_repr(s@, p as int, p + 2, seq![9u8]));
                    lemma_body_extend(s@, pos + 1, p as int, p + 2, u, seq![9u8]);
                    assert(out@ =~= u + seq![9u8]);
                }
                p = p + 2;
            } else if e == 117 {
                let (hi, q) = match parse_hex4(s, p + 2) {
                    Ok(v) => v,
                    Err(err) => {
                        return Err(err);
                    },
                };
                if 0xD800 <= hi && hi < 0xDC00 {
                    // A high surrogate must be followed by an escaped low
                    // surrogate; the pair encodes one scalar value.
                    if q >= n || s[q] != 92 {
                        return Err(JsonError { at: q });
                    }
                    if q + 1 >= n || s[q + 1] != 117 {
                        return Err(JsonError { at: q });
                    }
                    let (lo, q2) = match parse_hex4(s, q + 2) {
                        Ok(v) => v,
                        Err(err) => {
                            return Err(err);
                        },
                    };
                    if !(0xDC00 <= lo && lo < 0xE000) {
                        return Err(JsonError { at: q });
                    }
                    let cp: u32 = 0x10000 + (hi - 0xD800) * 0x400 + (lo - 0xDC00);
                    push_utf8(&mut out, cp);
                    proof {
                        assert(chunk_repr(s@, p as int, p + 12, utf8_enc(cp as int)));
                        lemma_body_extend(s@, pos + 1, p as int, p + 12, u, utf8_enc(cp as int));
                    }
                    p = q2;
                } else if 0xDC00 <= hi && hi < 0xE000 {
                    return Err(JsonError { at: p });
                } else {
                    push_utf8(&mut out, hi);
                    proof {
                        assert(chunk_repr(s@, p as int, p + 6, utf8_enc(hi as int)));
                        lemma_body_extend(s@, pos + 1, p as int, p + 6, u, utf8_enc(hi as int));
                    }
                    p = q;
                }
            } else {
                return Err(JsonError { at: p + 1 });
            }
        } else if c < 32 {
            return Err(JsonError { at: p });
        } else {
            let ghost u = out@;
            out.push(c);
            proof {
                assert(chunk_repr(s@, p as int, p + 1, seq![c]));
                lemma_body_extend(s@, pos + 1, p as int, p + 1, u, seq![c]);
                assert(out@ =~= u + seq![c]);
            }
            p = p + 1;
        }
    }
}

/// Reads a non-negative decimal integer; `pos` points at the first digit.
fn parse_number(s: &[u8], pos: usize) -> (r: Result<(u64, usize), JsonError>)
    requires
        pos < s@.len(),
    ensures
        r matches Ok((v, end)) ==> pos < end <= s@.len() && (forall|i: int|
            pos <= i < end ==> is_digit(s@[i])) && digits_val(s@, pos as int, end as int)
            == v && (end == s@.len() || !is_digit(s@[end as int])),
{
    let mut n: u64 = 0;
    let mut p: usize = pos;
    if !(48 <= s[p] && s[p] <= 57) {
        return Err(JsonError { at: p });
    }
    while p < s.len() && 48 <= s[p] && s[p] <= 57
        invariant
            pos <= p <= s@.len(),
            forall|i: int| pos <= i < p ==> is_digit(s@[i]),
            digits_val(s@, pos as int, p as int) == n,
        decreases s@.len() - p,
    {
        let d = s[p] - 48;
        if n > 1844674407370955161 {
            return Err(JsonError { at: p });
        }
        n = n * 10;
        if (d as u64) > 18446744073709551615 - n {
            return Err(JsonError { at: p });
        }
        n = n + d as u64;
        p = p + 1;
    }
    assert(p > pos);
    Ok((n, p))
}

/// Reads one JSON value; `pos` points at its first byte (no leading
/// whitespace).
#[verifier::rlimit(100)]
pub fn parse_value(s: &[u8], pos: usize) -> (r: Result<(Json, usize), JsonError>)
    requires
        pos <= s@.len(),
    ensures
        r matches Ok((v, end)) ==> pos < end <= s@.len() && json_repr(
            s@,
            pos as int,
            end as int,
            v,
        ),
    decreases s@.len() - pos,
{
    if pos >= s.len() {
        return Err(JsonError { at: pos });
    }
    let c = s[pos];
    if c == 110 {
        if s.len() - pos >= 4 && s[pos + 1] == 117 && s[pos + 2] == 108 && s[pos + 3] == 108 {
            Ok((Json::Null, pos + 4))
        } else {
            Err(JsonError { at: pos })
        }
    } else if c == 116 {
        if s.len() - pos >= 4 && s[pos + 1] == 114 && s[pos + 2] == 117 && s[pos + 3] == 101 {
            Ok((Json::Bool(true), pos + 4))
        } else {
            Err(JsonError { at: pos })
        }
    } else if c == 102 {
        if s.len() - pos >= 5 && s[pos + 1] == 97 && s[pos + 2] == 108 && s[pos + 3] == 115 && s[
            pos + 4] == 101 {
            Ok((Json::Bool(false), pos + 5))
        } else {
            Err(JsonError { at: pos })
        }
    } else if c == 34 {
        match parse_string(s, pos) {
            Ok((t, end)) => Ok((Json::Text(t), end)),
            Err(e) => Err(e),
        }
    } else if 48 <= c && c <= 57 {
        match parse_number(s, pos) {
            Ok((n, end)) => Ok((Json::UInt(n), end)),
            Err(e) => Err(e),
        }
    } else if c == 91 {
        let mut items: Vec<Json> = Vec::new();
        let mut p: usize = skip_ws(s, pos + 1);
        if p < s.len() && s[p] == 93 {
            proof {
                assert(arr_items_repr(s@, pos + 1, pos + 1, items@));
                assert(ws_span(s@, pos + 1, (p + 1) - 1));
                assert(s@[(p + 1) - 1] == 93);
                assert(json_repr(s@, pos as int, p + 1, Json::Arr(items)));
            }
            return Ok((Json::Arr(items), p + 1));
        }
        let ghost mut last_end: int = 0;
        let ghost mut comma: int = 0;
        loop
            invariant
                pos < p <= s@.len(),
                s@[pos as int] == 91,
                pos + 1 <= p,
                items@.len() == 0 ==> ws_span(s@, pos + 1, p as int),
                items@.len() > 0 ==> arr_items_repr(s@, pos + 1, last_end, items@) && ws_span(
                    s@,
                    last_end,
                    comma,
                ) && comma < s@.len() && s@[comma] == 44 && ws_span(s@, comma + 1, p as int)
                    && pos + 1 <= last_end && last_end <= comma && comma + 1 <= p,
            decreases s@.len() - p,
        {
            let (v, q) = match parse_value(s, p) {
                Ok(v) => v,
                Err(e) => {
                    return Err(e);
                },
            };
            let ghost old_items = items@;
            let ghost vv = v;
            items.push(v);
            proof {
                assert(items@.drop_last() =~= old_items);
                assert(items@.last() == vv);
                if old_items.len() == 0 {
                    assert(items@[0] == vv);
                    assert(arr_items_repr(s@, pos + 1, q as int, items@));
                } else {
                    assert(arr_items_repr(s@, pos + 1, q as int, items@));
                }
                last_end = q as int;
            }
            let q2 = skip_ws(s, q);
            if q2 >= s.len() {
                return Err(JsonError { at: q2 });
            }
            if s[q2] == 93 {
                proof {
                    assert(ws_span(s@, last_end, (q2 + 1) - 1));
                    assert(s@[(q2 + 1) - 1] == 93);
                    assert(json_repr(s@, pos as int, q2 + 1, Json::Arr(items)));
                }
                return Ok((Json::Arr(items), q2 + 1));
            }
            if s[q2] != 44 {
                return Err(JsonError { at: q2 });
            }
            proof {
                comma = q2 as int;
            }
            p = skip_ws(s, q2 + 1);
        }
    } else if c == 123 {
        let mut members: Vec<(Vec<u8>, Json)> = Vec::new();
        let mut p: usize = skip_ws(s, pos + 1);
        if p < s.len() && s[p] == 125 {
            proof {
                assert(obj_items_repr(s@, pos + 1, pos + 1, members@));
                assert(ws_span(s@, pos + 1, (p + 1) - 1));
                assert(s@[(p + 1) - 1] == 125);
                assert(json_repr(s@, pos as int, p + 1, Json::Obj(members)));
            }
            return Ok((Json::Obj(members), p + 1));
        }
        let ghost mut last_end: int = 0;
        let ghost mut comma: int = 0;
        loop
            invariant
                pos < p <= s@.len(),
                s@[pos as int] == 123,
                pos + 1 <= p,
                members@.len() == 0 ==> ws_span(s@, pos + 1, p as int),
                members@.len() > 0 ==> obj_items_repr(s@, pos + 1, last_end, members@)
                    && ws_span(s@, last_end, comma) && comma < s@.len() && s@[comma] == 44
                    && ws_span(s@, comma + 1, p as int) && pos + 1 <= last_end && last_end
                    <= comma && comma + 1 <= p,
            decreases s@.len() - p,
        {
            if p >= s.len() || s[p] != 34 {
                return Err(JsonError { at: p });
            }
            let (key, q) = match parse_string(s, p) {
                Ok(v) => v,
                Err(e) => {
                    return Err(e);
                },
            };
            let q2 = skip_ws(s, q);
            if q2 >= s.len() || s[q2] != 58 {
                return Err(JsonError { at: q2 });
            }
            let q3 = skip_ws(s, q2 + 1);
            let (v, q4) = match parse_value(s, q3) {
                Ok(v) => v,
                Err(e) => {
                    return Err(e);
                },
            };
            let ghost old_members = members@;
            let ghost kv = (key, v);
            members.push((key, v));
            proof {
                assert(member_repr(s@, p as int, q4 as int, kv));
                assert(members@.drop_last() =~= old_members);
                assert(members@.last() == kv);
                if old_members.len() == 0 {
                    assert(members@[0] == kv);
                    assert(obj_items_repr(s@, pos + 1, q4 as int, members@));
                } else {
                    assert(obj_items_repr(s@, pos + 1, q4 as int, members@));
                }
                last_end = q4 as int;
            }
            let q5 = skip_ws(s, q4);
            if q5 >= s.len() {
                return Err(JsonError { at: q5 });
            }
            if s[q5] == 125 {
                proof {
                    assert(pos + 1 <= last_end);
                    assert(last_end <= q5 as int);
                    assert(obj_items_repr(s@, pos + 1, last_end, members@));
                    assert(ws_span(s@, last_end, q5 as int));
                    assert(ws_span(s@, last_end, (q5 + 1) - 1));
                    assert(s@[(q5 + 1) - 1] == 125);
                    assert(json_repr(s@, pos as int, q5 + 1, Json::Obj(members)));
                }
                return Ok((Json::Obj(members), q5 + 1));
            }
            if s[q5] != 44 {
                return Err(JsonError { at: q5 });
            }
            proof {
                comma = q5 as int;
            }
            p = skip_ws(s, q5 + 1);
        }
    } else {
        Err(JsonError { at: pos })
    }
}

/// Parses a whole document: one JSON value with nothing but whitespace
/// around it. A returned value is proved to represent the bytes; a
/// rejection carries the offset of the first offending byte.
pub fn parse_json(s: &[u8]) -> (r: Result<Json, JsonError>)
    ensures
        r matches Ok(v) ==> doc_repr(s@, v),
{
    let p = skip_ws(s, 0);
    match parse_value(s, p) {
        Ok((v, end)) => {
            let q = skip_ws(s, end);
            if q == s.len() {
                Ok(v)
            } else {
                Err(JsonError { at: q })
            }
        },
        Err(e) => Err(e),
    }
}

} // verus!
