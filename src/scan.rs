//! A single forward scan over a JSON object that finds its top-level
//! members without decoding nested values: each member is reported as the
//! span of its key's characters and the span of its value's text.
use vstd::prelude::*;

verus! {

/// JSON whitespace.
pub open spec fn is_ws(c: char) -> bool {
    c == ' ' || c == '\t' || c == '\n' || c == '\r'
}

/// The first position at or after `i` that is not whitespace.
pub open spec fn skip_ws(s: Seq<char>, i: int) -> int
    decreases s.len() - i,
{
    if 0 <= i < s.len() && is_ws(s[i]) {
        skip_ws(s, i + 1)
    } else {
        i
    }
}

/// The position of the quote that closes a string whose characters start
/// at `i`; a backslash escapes the character after it.
pub open spec fn string_close(s: Seq<char>, i: int) -> Option<int>
    decreases s.len() + 1 - i,
{
    if i < 0 || i >= s.len() {
        None
    } else if s[i] == '"' {
        Some(i)
    } else if s[i] == '\\' {
        string_close(s, i + 2)
    } else {
        string_close(s, i + 1)
    }
}

/// The position just after the bracket that closes a nested object or
/// array, scanning from `i` at bracket depth `depth`, inside a string when
/// `in_str`.
pub open spec fn nested_end(s: Seq<char>, i: int, depth: nat, in_str: bool) -> Option<int>
    decreases s.len() + 1 - i,
{
    if i < 0 || i >= s.len() {
        None
    } else if in_str {
        if s[i] == '\\' {
            nested_end(s, i + 2, depth, true)
        } else if s[i] == '"' {
            nested_end(s, i + 1, depth, false)
        } else {
            nested_end(s, i + 1, depth, true)
        }
    } else if s[i] == '"' {
        nested_end(s, i + 1, depth, true)
    } else if s[i] == '{' || s[i] == '[' {
        nested_end(s, i + 1, depth + 1, false)
    } else if s[i] == '}' || s[i] == ']' {
        if depth <= 1 {
            Some(i + 1)
        } else {
            nested_end(s, i + 1, (depth - 1) as nat, false)
        }
    } else {
        nested_end(s, i + 1, depth, false)
    }
}

/// Characters that end a bare value such as a number or `true`.
pub open spec fn ends_atom(c: char) -> bool {
    is_ws(c) || c == ',' || c == '}' || c == ']'
}

/// The end of a bare value starting at `i`.
pub open spec fn atom_end(s: Seq<char>, i: int) -> int
    decreases s.len() - i,
{
    if 0 <= i < s.len() && !ends_atom(s[i]) {
        atom_end(s, i + 1)
    } else {
        i
    }
}

/// The end of the value starting at `i`: a string, a nested object or
/// array, or a non-empty bare value.
pub open spec fn value_end(s: Seq<char>, i: int) -> Option<int> {
    if i < 0 || i >= s.len() {
        None
    } else if s[i] == '"' {
        match string_close(s, i + 1) {
            Some(j) => Some(j + 1),
            None => None,
        }
    } else if s[i] == '{' || s[i] == '[' {
        nested_end(s, i + 1, 1, false)
    } else if atom_end(s, i) > i {
        Some(atom_end(s, i))
    } else {
        None
    }
}

/// The members from `i` (just after `{` or a `,`) to the closing `}`, each
/// as (key start, key end, value start, value end).
pub open spec fn members(s: Seq<char>, i: int) -> Option<Seq<(int, int, int, int)>>
    decreases s.len() - i,
{
    let k = skip_ws(s, i);
    if k < 0 || k >= s.len() || s[k] != '"' {
        None
    } else {
        match string_close(s, k + 1) {
            None => None,
            Some(ke) => {
                let c = skip_ws(s, ke + 1);
                if c < 0 || c >= s.len() || s[c] != ':' {
                    None
                } else {
                    let v = skip_ws(s, c + 1);
                    match value_end(s, v) {
                        None => None,
                        Some(ve) => {
                            let n = skip_ws(s, ve);
                            let m = (k + 1, ke, v, ve);
                            if n < 0 || n >= s.len() {
                                None
                            } else if s[n] == '}' {
                                Some(seq![m])
                            } else if s[n] == ',' && n >= i {
                                match members(s, n + 1) {
                                    Some(rest) => Some(seq![m] + rest),
                                    None => None,
                                }
                            } else {
                                None
                            }
                        },
                    }
                }
            },
        }
    }
}

/// The top-level members of the object that `s` holds, or `None` when `s`
/// does not start (after whitespace) with a well-formed object.
pub open spec fn object_members(s: Seq<char>) -> Option<Seq<(int, int, int, int)>> {
    let o = skip_ws(s, 0);
    if o >= s.len() || s[o] != '{' {
        None
    } else {
        let f = skip_ws(s, o + 1);
        if f < s.len() && s[f] == '}' {
            Some(Seq::empty())
        } else {
            members(s, o + 1)
        }
    }
}

/// Spans are within `s` and ordered.
pub open spec fn spans_valid(s: Seq<char>, ms: Seq<(int, int, int, int)>) -> bool {
    forall|j: int|
        0 <= j < ms.len() ==> 0 <= (#[trigger] ms[j]).0 <= ms[j].1 <= ms[j].2 <= ms[j].3 <= s.len()
}

pub fn skip_ws_at(v: &Vec<char>, i: usize) -> (r: usize)
    requires
        i <= v.len(),
    ensures
        r == skip_ws(v@, i as int),
        i <= r <= v.len(),
{
    let mut k = i;
    while k < v.len() && (v[k] == ' ' || v[k] == '\t' || v[k] == '\n' || v[k] == '\r')
        invariant
            i <= k <= v.len(),
            skip_ws(v@, i as int) == skip_ws(v@, k as int),
        decreases v.len() - k,
    {
        k = k + 1;
    }
    k
}

pub fn string_close_at(v: &Vec<char>, i: usize) -> (r: Option<usize>)
    requires
        i <= v.len() + 1,
    ensures
        r matches Some(j) ==> string_close(v@, i as int) == Some(j as int) && i <= j < v.len(),
        r is None ==> string_close(v@, i as int) is None,
{
    if i > v.len() {
        return None;
    }
    let mut k = i;
    while k < v.len()
        invariant
            i <= k <= v.len(),
            string_close(v@, i as int) == string_close(v@, k as int),
        decreases v.len() - k,
    {
        if v[k] == '"' {
            return Some(k);
        } else if v[k] == '\\' {
            if k + 1 >= v.len() {
                assert(string_close(v@, k + 2) is None);
                return None;
            }
            k = k + 2;
        } else {
            k = k + 1;
        }
    }
    None
}

pub fn nested_end_at(v: &Vec<char>, i: usize) -> (r: Option<usize>)
    requires
        1 <= i <= v.len(),
    ensures
        r matches Some(j) ==> nested_end(v@, i as int, 1, false) == Some(j as int) && i < j <= v.len(),
        r is None ==> nested_end(v@, i as int, 1, false) is None,
{
    let mut k = i;
    let mut depth: usize = 1;
    let mut in_str = false;
    while k < v.len()
        invariant
            1 <= i <= k <= v.len(),
            1 <= depth <= k - i + 1,
            nested_end(v@, i as int, 1, false) == nested_end(v@, k as int, depth as nat, in_str),
        decreases v.len() - k,
    {
        let c = v[k];
        if in_str {
            if c == '\\' {
                if k + 1 >= v.len() {
                    assert(nested_end(v@, k + 2, depth as nat, true) is None);
                    return None;
                }
                k = k + 2;
            } else if c == '"' {
                in_str = false;
                k = k + 1;
            } else {
                k = k + 1;
            }
        } else if c == '"' {
            in_str = true;
            k = k + 1;
        } else if c == '{' || c == '[' {
            depth = depth + 1;
            k = k + 1;
        } else if c == '}' || c == ']' {
            if depth <= 1 {
                return Some(k + 1);
            }
            depth = depth - 1;
            k = k + 1;
        } else {
            k = k + 1;
        }
    }
    None
}

pub fn atom_end_at(v: &Vec<char>, i: usize) -> (r: usize)
    requires
        i <= v.len(),
    ensures
        r == atom_end(v@, i as int),
        i <= r <= v.len(),
{
    let mut k = i;
    while k < v.len() && !(v[k] == ' ' || v[k] == '\t' || v[k] == '\n' || v[k] == '\r' || v[k]
        == ',' || v[k] == '}' || v[k] == ']')
        invariant
            i <= k <= v.len(),
            atom_end(v@, i as int) == atom_end(v@, k as int),
        decreases v.len() - k,
    {
        k = k + 1;
    }
    k
}

pub fn value_end_at(v: &Vec<char>, i: usize) -> (r: Option<usize>)
    requires
        i <= v.len(),
    ensures
        r matches Some(j) ==> value_end(v@, i as int) == Some(j as int) && i < j <= v.len(),
        r is None ==> value_end(v@, i as int) is None,
{
    if i >= v.len() {
        None
    } else if v[i] == '"' {
        match string_close_at(v, i + 1) {
            Some(j) => Some(j + 1),
            None => None,
        }
    } else if v[i] == '{' || v[i] == '[' {
        nested_end_at(v, i + 1)
    } else {
        let e = atom_end_at(v, i);
        if e > i {
            Some(e)
        } else {
            None
        }
    }
}

/// Prepends `acc` to a scan result.
pub open spec fn prepend(
    acc: Seq<(int, int, int, int)>,
    rest: Option<Seq<(int, int, int, int)>>,
) -> Option<Seq<(int, int, int, int)>> {
    match rest {
        Some(r) => Some(acc + r),
        None => None,
    }
}

pub open spec fn span_view(m: (usize, usize, usize, usize)) -> (int, int, int, int) {
    (m.0 as int, m.1 as int, m.2 as int, m.3 as int)
}

pub open spec fn spans_view(ms: Seq<(usize, usize, usize, usize)>) -> Seq<(int, int, int, int)> {
    ms.map_values(|m: (usize, usize, usize, usize)| span_view(m))
}

/// Finds the top-level members of the object held in `v`.
pub fn scan_object(v: &Vec<char>) -> (r: Option<Vec<(usize, usize, usize, usize)>>)
    ensures
        r matches Some(ms) ==> object_members(v@) == Some(spans_view(ms@)) && spans_valid(
            v@,
            spans_view(ms@),
        ),
        r is None ==> object_members(v@) is None,
{
    let o = skip_ws_at(v, 0);
    if o >= v.len() || v[o] != '{' {
        return None;
    }
    let f = skip_ws_at(v, o + 1);
    let mut acc: Vec<(usize, usize, usize, usize)> = Vec::new();
    if f < v.len() && v[f] == '}' {
        assert(spans_view(acc@) =~= Seq::<(int, int, int, int)>::empty());
        return Some(acc);
    }
    let mut i = o + 1;
    loop
        invariant
            i <= v.len(),
            object_members(v@) == prepend(spans_view(acc@), members(v@, i as int)),
            spans_valid(v@, spans_view(acc@)),
        decreases v.len() - i,
    {
        let k = skip_ws_at(v, i);
        if k >= v.len() || v[k] != '"' {
            return None;
        }
        let ke = match string_close_at(v, k + 1) {
            Some(ke) => ke,
            None => {
                return None;
            },
        };
        let c = skip_ws_at(v, ke + 1);
        if c >= v.len() || v[c] != ':' {
            return None;
        }
        let vs = skip_ws_at(v, c + 1);
        let ve = match value_end_at(v, vs) {
            Some(ve) => ve,
            None => {
                return None;
            },
        };
        let n = skip_ws_at(v, ve);
        let ghost before = acc@;
        let ghost m = (k as int + 1, ke as int, vs as int, ve as int);
        if n >= v.len() {
            return None;
        }
        acc.push((k + 1, ke, vs, ve));
        proof {
            assert(spans_view(acc@) =~= spans_view(before).push(m));
            assert(spans_valid(v@, spans_view(acc@))) by {
                assert forall|j: int| 0 <= j < spans_view(acc@).len() implies 0 <= (
                #[trigger] spans_view(acc@)[j]).0 <= spans_view(acc@)[j].1
                    <= spans_view(acc@)[j].2 <= spans_view(acc@)[j].3 <= v@.len() by {
                    if j < before.len() {
                        assert(spans_view(acc@)[j] == spans_view(before)[j]);
                    }
                }
            }
        }
        if v[n] == '}' {
            assert(spans_view(before) + seq![m] =~= spans_view(acc@));
            return Some(acc);
        } else if v[n] == ',' {
            proof {
                let rest = members(v@, n as int + 1);
                assert(members(v@, i as int) == prepend(seq![m], rest));
                assert(prepend(spans_view(before), prepend(seq![m], rest)) == prepend(
                    spans_view(acc@),
                    rest,
                )) by {
                    if rest is Some {
                        assert(spans_view(before) + (seq![m] + rest->0) =~= spans_view(acc@)
                            + rest->0);
                    }
                }
            }
            i = n + 1;
        } else {
            return None;
        }
    }
}

} // verus!
