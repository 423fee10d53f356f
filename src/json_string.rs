//! Decoding the characters of a JSON string literal: backslash escapes,
//! `\uXXXX` included.
use vstd::prelude::*;
use crate::text::push_char;

verus! {

/// Relies on `char::from_u32`: the character whose code is `v`, or `None`
/// when `v` is a surrogate code or above `0x10FFFF`.
#[verifier::external_body]
fn char_from_code(v: u32) -> (r: Option<char>)
    ensures
        r is Some <==> (v < 0xD800 || (0xE000 <= v && v <= 0x10FFFF)),
        r matches Some(c) ==> c as u32 == v && c == char_of(v as nat),
{
    char::from_u32(v)
}

/// The value of a hexadecimal digit.
pub open spec fn hex_value(c: char) -> Option<nat> {
    if '0' <= c <= '9' {
        Some((c as u32 - '0' as u32) as nat)
    } else if 'a' <= c <= 'f' {
        Some((c as u32 - 'a' as u32 + 10) as nat)
    } else if 'A' <= c <= 'F' {
        Some((c as u32 - 'A' as u32 + 10) as nat)
    } else {
        None
    }
}

/// The number written by four hexadecimal digits.
pub open spec fn hex4_value(t: Seq<char>) -> Option<nat> {
    match (hex_value(t[0]), hex_value(t[1]), hex_value(t[2]), hex_value(t[3])) {
        (Some(a), Some(b), Some(c), Some(d)) => Some(((a * 16 + b) * 16 + c) * 16 + d),
        _ => None,
    }
}

/// Whether `v` is the code of a character.
pub open spec fn is_scalar_code(v: nat) -> bool {
    v < 0xD800 || (0xE000 <= v && v <= 0x10FFFF)
}

/// The character whose code is `v`, as `char::from_u32` gives it.
pub uninterp spec fn char_of(v: nat) -> char;

/// The character that the escape `\e` stands for, for the one-letter
/// escapes of JSON.
pub open spec fn simple_escape(e: char) -> Option<char> {
    if e == '"' {
        Some('"')
    } else if e == '\\' {
        Some('\\')
    } else if e == '/' {
        Some('/')
    } else if e == 'b' {
        Some('\u{8}')
    } else if e == 'f' {
        Some('\u{c}')
    } else if e == 'n' {
        Some('\n')
    } else if e == 'r' {
        Some('\r')
    } else if e == 't' {
        Some('\t')
    } else {
        None
    }
}

/// `c` in front of a decoding result.
pub open spec fn cons(c: char, rest: Option<Seq<char>>) -> Option<Seq<char>> {
    match rest {
        Some(r) => Some(seq![c] + r),
        None => None,
    }
}

/// The characters that the body `t` of a JSON string literal stands for, or
/// `None` when an escape is malformed or writes a surrogate code.
pub open spec fn unescape(t: Seq<char>) -> Option<Seq<char>>
    decreases t.len(),
{
    if t.len() == 0 {
        Some(Seq::empty())
    } else if t[0] != '\\' {
        cons(t[0], unescape(t.drop_first()))
    } else if t.len() < 2 {
        None
    } else if t[1] == 'u' {
        if t.len() < 6 {
            None
        } else {
            match hex4_value(t.subrange(2, 6)) {
                Some(v) => if is_scalar_code(v) {
                    cons(char_of(v), unescape(t.subrange(6, t.len() as int)))
                } else {
                    None
                },
                None => None,
            }
        }
    } else {
        match simple_escape(t[1]) {
            Some(c) => cons(c, unescape(t.subrange(2, t.len() as int))),
            None => None,
        }
    }
}

/// Prepends `acc` to a decoding result.
pub open spec fn prefixed(acc: Seq<char>, rest: Option<Seq<char>>) -> Option<Seq<char>> {
    match rest {
        Some(r) => Some(acc + r),
        None => None,
    }
}

fn hex_digit_value(c: char) -> (r: Option<u32>)
    ensures
        r matches Some(x) ==> hex_value(c) == Some(x as nat) && x < 16,
        r is None ==> hex_value(c) is None,
{
    if '0' <= c && c <= '9' {
        Some(c as u32 - '0' as u32)
    } else if 'a' <= c && c <= 'f' {
        Some(c as u32 - 'a' as u32 + 10)
    } else if 'A' <= c && c <= 'F' {
        Some(c as u32 - 'A' as u32 + 10)
    } else {
        None
    }
}

/// Decodes the body of a JSON string literal held in `v[from..to]`.
pub fn unescape_span(v: &Vec<char>, from: usize, to: usize) -> (r: Option<String>)
    requires
        from <= to <= v.len(),
    ensures
        r matches Some(s) ==> unescape(v@.subrange(from as int, to as int)) == Some(s@),
        r is None ==> unescape(v@.subrange(from as int, to as int)) is None,
{
    let mut out = String::new();
    let mut i = from;
    assert(out@ =~= Seq::<char>::empty());
    while i < to
        invariant
            from <= i <= to <= v.len(),
            unescape(v@.subrange(from as int, to as int)) == prefixed(
                out@,
                unescape(v@.subrange(i as int, to as int)),
            ),
        decreases to - i,
    {
        let ghost t = v@.subrange(i as int, to as int);
        let ghost before = out@;
        let c = v[i];
        assert(t[0] == c);
        if c != '\\' {
            assert(t.drop_first() =~= v@.subrange(i + 1, to as int));
            push_char(&mut out, c);
            i = i + 1;
            proof {
                let rest = unescape(v@.subrange(i as int, to as int));
                if rest is Some {
                    assert(before + (seq![c] + rest->0) =~= out@ + rest->0);
                }
            }
        } else if i + 1 >= to {
            return None;
        } else if v[i + 1] == 'u' {
            assert(t[1] == 'u');
            if to - i < 6 {
                return None;
            }
            let h0 = hex_digit_value(v[i + 2]);
            let h1 = hex_digit_value(v[i + 3]);
            let h2 = hex_digit_value(v[i + 4]);
            let h3 = hex_digit_value(v[i + 5]);
            let ghost h = t.subrange(2, 6);
            assert(h[0] == v@[i + 2] && h[1] == v@[i + 3] && h[2] == v@[i + 4] && h[3] == v@[i + 5]);
            match (h0, h1, h2, h3) {
                (Some(a), Some(b), Some(d), Some(e)) => {
                    let code = ((a * 16 + b) * 16 + d) * 16 + e;
                    assert(hex4_value(h) == Some(code as nat));
                    match char_from_code(code) {
                        Some(ch) => {
                            assert(ch == char_of(code as nat));
                            assert(t.subrange(6, t.len() as int) =~= v@.subrange(i + 6, to as int));
                            push_char(&mut out, ch);
                            i = i + 6;
                            proof {
                                let rest = unescape(v@.subrange(i as int, to as int));
                                if rest is Some {
                                    assert(before + (seq![ch] + rest->0) =~= out@ + rest->0);
                                }
                            }
                        },
                        None => {
                            return None;
                        },
                    }
                },
                _ => {
                    return None;
                },
            }
        } else {
            let e = v[i + 1];
            assert(t[1] == e);
            let decoded = if e == '"' {
                '"'
            } else if e == '\\' {
                '\\'
            } else if e == '/' {
                '/'
            } else if e == 'b' {
                '\u{8}'
            } else if e == 'f' {
                '\u{c}'
            } else if e == 'n' {
                '\n'
            } else if e == 'r' {
                '\r'
            } else if e == 't' {
                '\t'
            } else {
                return None;
            };
            assert(simple_escape(e) == Some(decoded));
            assert(t.subrange(2, t.len() as int) =~= v@.subrange(i + 2, to as int));
            push_char(&mut out, decoded);
            i = i + 2;
            proof {
                let rest = unescape(v@.subrange(i as int, to as int));
                if rest is Some {
                    assert(before + (seq![decoded] + rest->0) =~= out@ + rest->0);
                }
            }
        }
    }
    assert(v@.subrange(i as int, to as int) =~= Seq::<char>::empty());
    assert(out@ + Seq::<char>::empty() =~= out@);
    Some(out)
}

} // verus!
