//! Parser for the JSON-like per-asset configuration documents.
//!
//! A document is one object. The parser keeps the string-valued fields and,
//! for an array-valued field whose elements are all objects, the
//! string-valued fields of each element; every other value is skipped
//! without interpretation. Quoted strings share the escape handling of the
//! key-value format; a unicode escape is not accepted. A comma before a
//! closing bracket is tolerated. As in the key-value format, the
//! specification functions define the grammar and recursive productions
//! carry an explicit termination bound.

use vstd::prelude::*;

use crate::vdf::{scan_quoted, skip_ws};

verus! {

/// Characters that may form an unquoted primitive token: a number or a
/// literal such as `true` or `null`.
pub open spec fn is_prim(c: char) -> bool {
    ('0' <= c && c <= '9') || ('a' <= c && c <= 'z') || ('A' <= c && c <= 'Z') || c == '-' || c
        == '+' || c == '.'
}

/// First index at or after `i` that does not continue a primitive token.
pub open spec fn prim_end(s: Seq<char>, i: int) -> int
    decreases s.len() - i
        when 0 <= i <= s.len()
{
    if i < s.len() && is_prim(s[i]) {
        prim_end(s, i + 1)
    } else {
        i
    }
}

/// Index one past a whole value starting at or after `i`, skipped without
/// interpretation: a string, an object, an array, or a primitive token.
pub open spec fn spec_skip_value(s: Seq<char>, i: int, fuel: nat) -> Option<int>
    decreases fuel,
{
    if fuel == 0 {
        None
    } else {
        let k = skip_ws(s, i);
        if !(0 <= i <= s.len()) || k >= s.len() {
            None
        } else if s[k] == '"' {
            match scan_quoted(s, k + 1) {
                Some((c, j)) => Some(j),
                None => None,
            }
        } else if s[k] == '{' {
            spec_skip_obj_body(s, k + 1, (fuel - 1) as nat)
        } else if s[k] == '[' {
            spec_skip_arr_body(s, k + 1, (fuel - 1) as nat)
        } else if is_prim(s[k]) {
            Some(prim_end(s, k))
        } else {
            None
        }
    }
}

/// Skips the members of an object from just after its opening brace.
pub open spec fn spec_skip_obj_body(s: Seq<char>, i: int, fuel: nat) -> Option<int>
    decreases fuel,
{
    if fuel == 0 {
        None
    } else {
        let k = skip_ws(s, i);
        if !(0 <= i <= s.len()) || k >= s.len() {
            None
        } else if s[k] == '}' {
            Some(k + 1)
        } else if s[k] == '"' {
            match scan_quoted(s, k + 1) {
                Some((key, j)) => {
                    let k2 = skip_ws(s, j);
                    if k2 < s.len() && s[k2] == ':' {
                        match spec_skip_value(s, k2 + 1, (fuel - 1) as nat) {
                            Some(j2) => {
                                let k3 = skip_ws(s, j2);
                                if k3 >= s.len() {
                                    None
                                } else if s[k3] == ',' {
                                    spec_skip_obj_body(s, k3 + 1, (fuel - 1) as nat)
                                } else if s[k3] == '}' {
                                    Some(k3 + 1)
                                } else {
                                    None
                                }
                            },
                            None => None,
                        }
                    } else {
                        None
                    }
                },
                None => None,
            }
        } else {
            None
        }
    }
}

/// Skips the elements of an array from just after its opening bracket.
pub open spec fn spec_skip_arr_body(s: Seq<char>, i: int, fuel: nat) -> Option<int>
    decreases fuel,
{
    if fuel == 0 {
        None
    } else {
        let k = skip_ws(s, i);
        if !(0 <= i <= s.len()) || k >= s.len() {
            None
        } else if s[k] == ']' {
            Some(k + 1)
        } else {
            match spec_skip_value(s, i, (fuel - 1) as nat) {
                Some(j) => {
                    let k2 = skip_ws(s, j);
                    if k2 >= s.len() {
                        None
                    } else if s[k2] == ',' {
                        spec_skip_arr_body(s, k2 + 1, (fuel - 1) as nat)
                    } else if s[k2] == ']' {
                        Some(k2 + 1)
                    } else {
                        None
                    }
                },
                None => None,
            }
        }
    }
}

/// Fields of one object from just after its opening brace, keeping a string
/// value and marking any other value as skipped.
pub open spec fn spec_flat_fields(s: Seq<char>, i: int, fuel: nat) -> Option<
    (Seq<(Seq<char>, Option<Seq<char>>)>, int),
>
    decreases fuel,
{
    if fuel == 0 {
        None
    } else {
        let k = skip_ws(s, i);
        if !(0 <= i <= s.len()) || k >= s.len() {
            None
        } else if s[k] == '}' {
            Some((Seq::<(Seq<char>, Option<Seq<char>>)>::empty(), k + 1))
        } else if s[k] == '"' {
            match scan_quoted(s, k + 1) {
                Some((key, j)) => {
                    let k2 = skip_ws(s, j);
                    if k2 < s.len() && s[k2] == ':' {
                        let k3 = skip_ws(s, k2 + 1);
                        if k3 >= s.len() {
                            None
                        } else if s[k3] == '"' {
                            match scan_quoted(s, k3 + 1) {
                                Some((val, j2)) => {
                                    let k4 = skip_ws(s, j2);
                                    if k4 >= s.len() {
                                        None
                                    } else if s[k4] == ',' {
                                        match spec_flat_fields(s, k4 + 1, (fuel - 1) as nat) {
                                            Some((rest, j3)) => Some(
                                                (seq![(key, Some(val))] + rest, j3),
                                            ),
                                            None => None,
                                        }
                                    } else if s[k4] == '}' {
                                        Some((seq![(key, Some(val))], k4 + 1))
                                    } else {
                                        None
                                    }
                                },
                                None => None,
                            }
                        } else {
                            match spec_skip_value(s, k2 + 1, (fuel - 1) as nat) {
                                Some(j2) => {
                                    let k4 = skip_ws(s, j2);
                                    if k4 >= s.len() {
                                        None
                                    } else if s[k4] == ',' {
                                        match spec_flat_fields(s, k4 + 1, (fuel - 1) as nat) {
                                            Some((rest, j3)) => Some(
                                                (seq![(key, None::<Seq<char>>)] + rest, j3),
                                            ),
                                            None => None,
                                        }
                                    } else if s[k4] == '}' {
                                        Some((seq![(key, None::<Seq<char>>)], k4 + 1))
                                    } else {
                                        None
                                    }
                                },
                                None => None,
                            }
                        }
                    } else {
                        None
                    }
                },
                None => None,
            }
        } else {
            None
        }
    }
}

/// Elements of an array whose every element is an object, each read as its
/// flat fields, from just after the opening bracket.
pub open spec fn spec_obj_array(s: Seq<char>, i: int, fuel: nat) -> Option<
    (Seq<Seq<(Seq<char>, Option<Seq<char>>)>>, int),
>
    decreases fuel,
{
    if fuel == 0 {
        None
    } else {
        let k = skip_ws(s, i);
        if !(0 <= i <= s.len()) || k >= s.len() {
            None
        } else if s[k] == ']' {
            Some((Seq::<Seq<(Seq<char>, Option<Seq<char>>)>>::empty(), k + 1))
        } else if s[k] == '{' {
            match spec_flat_fields(s, k + 1, (fuel - 1) as nat) {
                Some((fs, j)) => {
                    let k2 = skip_ws(s, j);
                    if k2 >= s.len() {
                        None
                    } else if s[k2] == ',' {
                        match spec_obj_array(s, k2 + 1, (fuel - 1) as nat) {
                            Some((rest, j2)) => Some((seq![fs] + rest, j2)),
                            None => None,
                        }
                    } else if s[k2] == ']' {
                        Some((seq![fs], k2 + 1))
                    } else {
                        None
                    }
                },
                None => None,
            }
        } else {
            None
        }
    }
}

/// One field value of the top-level configuration object, as far as this
/// parser interprets it.
pub enum SpecCfgVal {
    Text(Seq<char>),
    Objs(Seq<Seq<(Seq<char>, Option<Seq<char>>)>>),
    Other,
}

/// Fields of the top-level configuration object from just after its opening
/// brace. A string value is kept; an array of objects is kept element by
/// element; any other value is skipped.
pub open spec fn spec_config_fields(s: Seq<char>, i: int, fuel: nat) -> Option<
    (Seq<(Seq<char>, SpecCfgVal)>, int),
>
    decreases fuel, 1int,
{
    if fuel == 0 {
        None
    } else {
        let k = skip_ws(s, i);
        if !(0 <= i <= s.len()) || k >= s.len() {
            None
        } else if s[k] == '}' {
            Some((Seq::<(Seq<char>, SpecCfgVal)>::empty(), k + 1))
        } else if s[k] == '"' {
            match scan_quoted(s, k + 1) {
                Some((key, j)) => {
                    let k2 = skip_ws(s, j);
                    if k2 < s.len() && s[k2] == ':' {
                        let k3 = skip_ws(s, k2 + 1);
                        if k3 >= s.len() {
                            None
                        } else if s[k3] == '"' {
                            match scan_quoted(s, k3 + 1) {
                                Some((val, j2)) => spec_config_after(
                                    s,
                                    j2,
                                    fuel,
                                    key,
                                    SpecCfgVal::Text(val),
                                ),
                                None => None,
                            }
                        } else if s[k3] == '[' {
                            match spec_obj_array(s, k3 + 1, (fuel - 1) as nat) {
                                Some((objs, j2)) => spec_config_after(
                                    s,
                                    j2,
                                    fuel,
                                    key,
                                    SpecCfgVal::Objs(objs),
                                ),
                                None => match spec_skip_arr_body(s, k3 + 1, (fuel - 1) as nat) {
                                    Some(j2) => spec_config_after(
                                        s,
                                        j2,
                                        fuel,
                                        key,
                                        SpecCfgVal::Other,
                                    ),
                                    None => None,
                                },
                            }
                        } else {
                            match spec_skip_value(s, k2 + 1, (fuel - 1) as nat) {
                                Some(j2) => spec_config_after(s, j2, fuel, key, SpecCfgVal::Other),
                                None => None,
                            }
                        }
                    } else {
                        None
                    }
                },
                None => None,
            }
        } else {
            None
        }
    }
}

/// Continuation after one member of the top-level object: a comma continues
/// the field list, a closing brace ends it.
pub open spec fn spec_config_after(
    s: Seq<char>,
    j: int,
    fuel: nat,
    key: Seq<char>,
    val: SpecCfgVal,
) -> Option<(Seq<(Seq<char>, SpecCfgVal)>, int)>
    decreases fuel, 0int,
{
    if fuel == 0 {
        None
    } else {
        let k = skip_ws(s, j);
        if !(0 <= j <= s.len()) || k >= s.len() {
            None
        } else if s[k] == ',' {
            match spec_config_fields(s, k + 1, (fuel - 1) as nat) {
                Some((rest, j2)) => Some((seq![(key, val)] + rest, j2)),
                None => None,
            }
        } else if s[k] == '}' {
            Some((seq![(key, val)], k + 1))
        } else {
            None
        }
    }
}

/// A whole configuration document: one object, then only whitespace.
pub open spec fn spec_config_doc(s: Seq<char>) -> Option<Seq<(Seq<char>, SpecCfgVal)>> {
    let k = skip_ws(s, 0);
    if k < s.len() && s[k] == '{' {
        match spec_config_fields(s, k + 1, crate::vdf::doc_fuel(s.len())) {
            Some((fs, j)) => if skip_ws(s, j) == s.len() {
                Some(fs)
            } else {
                None
            },
            None => None,
        }
    } else {
        None
    }
}

/// Executable counterpart of [`SpecCfgVal`].
pub enum CfgVal {
    Text(Vec<char>),
    Objs(Vec<Vec<(Vec<char>, Option<Vec<char>>)>>),
    Other,
}

/// Specification-level reading of one flat field list.
pub open spec fn flat_view(fs: Seq<(Vec<char>, Option<Vec<char>>)>) -> Seq<
    (Seq<char>, Option<Seq<char>>),
> {
    fs.map_values(
        |f: (Vec<char>, Option<Vec<char>>)|
            (
                f.0@,
                match f.1 {
                    Some(v) => Some(v@),
                    None => None,
                },
            ),
    )
}

/// Specification-level reading of an object-array value.
pub open spec fn objs_view(os: Seq<Vec<(Vec<char>, Option<Vec<char>>)>>) -> Seq<
    Seq<(Seq<char>, Option<Seq<char>>)>,
> {
    os.map_values(|o: Vec<(Vec<char>, Option<Vec<char>>)>| flat_view(o@))
}

/// Specification-level reading of one configuration field value.
pub open spec fn cfg_val_view(v: CfgVal) -> SpecCfgVal {
    match v {
        CfgVal::Text(t) => SpecCfgVal::Text(t@),
        CfgVal::Objs(os) => SpecCfgVal::Objs(objs_view(os@)),
        CfgVal::Other => SpecCfgVal::Other,
    }
}

/// Specification-level reading of the configuration field list.
pub open spec fn cfg_fields_view(fs: Seq<(Vec<char>, CfgVal)>) -> Seq<(Seq<char>, SpecCfgVal)> {
    fs.map_values(|f: (Vec<char>, CfgVal)| (f.0@, cfg_val_view(f.1)))
}

/// First index at or after `i` holding a non-whitespace character.
fn ws_end(s: &Vec<char>, i: usize) -> (j: usize)
    requires
        i <= s@.len(),
    ensures
        j == skip_ws(s@, i as int),
        i <= j <= s@.len(),
{
    let mut k: usize = i;
    while k < s.len() && (s[k] == ' ' || s[k] == '\t' || s[k] == '\n' || s[k] == '\r')
        invariant
            i <= k <= s@.len(),
            skip_ws(s@, i as int) == skip_ws(s@, k as int),
        decreases s@.len() - k,
    {
        k = k + 1;
    }
    k
}

/// First index at or after `i` that does not continue a primitive token.
fn prim_token_end(s: &Vec<char>, i: usize) -> (j: usize)
    requires
        i <= s@.len(),
    ensures
        j == prim_end(s@, i as int),
        i <= j <= s@.len(),
{
    let mut k: usize = i;
    while k < s.len() && (('0' <= s[k] && s[k] <= '9') || ('a' <= s[k] && s[k] <= 'z') || ('A'
        <= s[k] && s[k] <= 'Z') || s[k] == '-' || s[k] == '+' || s[k] == '.')
        invariant
            i <= k <= s@.len(),
            prim_end(s@, i as int) == prim_end(s@, k as int),
        decreases s@.len() - k,
    {
        k = k + 1;
    }
    k
}

/// Skips one value; mirrors [`spec_skip_value`].
fn skip_value(s: &Vec<char>, i: usize, fuel: usize) -> (r: Option<usize>)
    requires
        i <= s@.len(),
    ensures
        (match r {
            Some(j) => spec_skip_value(s@, i as int, fuel as nat) == Some(j as int) && j
                <= s@.len(),
            None => spec_skip_value(s@, i as int, fuel as nat) is None,
        }),
    decreases fuel,
{
    if fuel == 0 {
        return None;
    }
    let k = ws_end(s, i);
    if k >= s.len() {
        return None;
    }
    let ch = s[k];
    if ch == '"' {
        match crate::vdf::take_quoted(s, k + 1) {
            Some((c, j)) => Some(j),
            None => None,
        }
    } else if ch == '{' {
        skip_obj_body(s, k + 1, fuel - 1)
    } else if ch == '[' {
        skip_arr_body(s, k + 1, fuel - 1)
    } else if ('0' <= ch && ch <= '9') || ('a' <= ch && ch <= 'z') || ('A' <= ch && ch <= 'Z') || ch
        == '-' || ch == '+' || ch == '.' {
        Some(prim_token_end(s, k))
    } else {
        None
    }
}

/// Skips an object's members; mirrors [`spec_skip_obj_body`].
fn skip_obj_body(s: &Vec<char>, i: usize, fuel: usize) -> (r: Option<usize>)
    requires
        i <= s@.len(),
    ensures
        (match r {
            Some(j) => spec_skip_obj_body(s@, i as int, fuel as nat) == Some(j as int) && j
                <= s@.len(),
            None => spec_skip_obj_body(s@, i as int, fuel as nat) is None,
        }),
    decreases fuel,
{
    if fuel == 0 {
        return None;
    }
    let k = ws_end(s, i);
    if k >= s.len() {
        return None;
    }
    let ch = s[k];
    if ch == '}' {
        Some(k + 1)
    } else if ch == '"' {
        match crate::vdf::take_quoted(s, k + 1) {
            Some((key, j)) => {
                let k2 = ws_end(s, j);
                if k2 < s.len() && s[k2] == ':' {
                    match skip_value(s, k2 + 1, fuel - 1) {
                        Some(j2) => {
                            let k3 = ws_end(s, j2);
                            if k3 >= s.len() {
                                None
                            } else if s[k3] == ',' {
                                skip_obj_body(s, k3 + 1, fuel - 1)
                            } else if s[k3] == '}' {
                                Some(k3 + 1)
                            } else {
                                None
                            }
                        },
                        None => None,
                    }
                } else {
                    None
                }
            },
            None => None,
        }
    } else {
        None
    }
}

/// Skips an array's elements; mirrors [`spec_skip_arr_body`].
fn skip_arr_body(s: &Vec<char>, i: usize, fuel: usize) -> (r: Option<usize>)
    requires
        i <= s@.len(),
    ensures
        (match r {
            Some(j) => spec_skip_arr_body(s@, i as int, fuel as nat) == Some(j as int) && j
                <= s@.len(),
            None => spec_skip_arr_body(s@, i as int, fuel as nat) is None,
        }),
    decreases fuel,
{
    if fuel == 0 {
        return None;
    }
    let k = ws_end(s, i);
    if k >= s.len() {
        return None;
    }
    if s[k] == ']' {
        Some(k + 1)
    } else {
        match skip_value(s, i, fuel - 1) {
            Some(j) => {
                let k2 = ws_end(s, j);
                if k2 >= s.len() {
                    None
                } else if s[k2] == ',' {
                    skip_arr_body(s, k2 + 1, fuel - 1)
                } else if s[k2] == ']' {
                    Some(k2 + 1)
                } else {
                    None
                }
            },
            None => None,
        }
    }
}

/// Reads one object's flat fields; mirrors [`spec_flat_fields`].
fn flat_fields(s: &Vec<char>, i: usize, fuel: usize) -> (r: Option<
    (Vec<(Vec<char>, Option<Vec<char>>)>, usize),
>)
    requires
        i <= s@.len(),
    ensures
        (match r {
            Some((fs, j)) => spec_flat_fields(s@, i as int, fuel as nat) == Some(
                (flat_view(fs@), j as int),
            ) && j <= s@.len(),
            None => spec_flat_fields(s@, i as int, fuel as nat) is None,
        }),
    decreases fuel,
{
    if fuel == 0 {
        return None;
    }
    let k = ws_end(s, i);
    if k >= s.len() {
        return None;
    }
    let ch = s[k];
    if ch == '}' {
        let out: Vec<(Vec<char>, Option<Vec<char>>)> = Vec::new();
        proof {
            assert(flat_view(out@) =~= Seq::<(Seq<char>, Option<Seq<char>>)>::empty());
        }
        Some((out, k + 1))
    } else if ch == '"' {
        match crate::vdf::take_quoted(s, k + 1) {
            Some((key, j)) => {
                let k2 = ws_end(s, j);
                if k2 < s.len() && s[k2] == ':' {
                    let k3 = ws_end(s, k2 + 1);
                    if k3 >= s.len() {
                        None
                    } else if s[k3] == '"' {
                        match crate::vdf::take_quoted(s, k3 + 1) {
                            Some((val, j2)) => {
                                let k4 = ws_end(s, j2);
                                if k4 >= s.len() {
                                    None
                                } else if s[k4] == ',' {
                                    match flat_fields(s, k4 + 1, fuel - 1) {
                                        Some((rest, j3)) => {
                                            let ghost rest_snap = rest@;
                                            let ghost val_snap = val@;
                                            let mut rest = rest;
                                            rest.insert(0, (key, Some(val)));
                                            proof {
                                                assert(flat_view(rest@) =~= seq![
                                                    (key@, Some(val_snap)),
                                                ] + flat_view(rest_snap));
                                            }
                                            Some((rest, j3))
                                        },
                                        None => None,
                                    }
                                } else if s[k4] == '}' {
                                    let ghost val_snap = val@;
                                    let mut out: Vec<(Vec<char>, Option<Vec<char>>)> = Vec::new();
                                    out.push((key, Some(val)));
                                    proof {
                                        assert(flat_view(out@) =~= seq![(key@, Some(val_snap))]);
                                    }
                                    Some((out, k4 + 1))
                                } else {
                                    None
                                }
                            },
                            None => None,
                        }
                    } else {
                        match skip_value(s, k2 + 1, fuel - 1) {
                            Some(j2) => {
                                let k4 = ws_end(s, j2);
                                if k4 >= s.len() {
                                    None
                                } else if s[k4] == ',' {
                                    match flat_fields(s, k4 + 1, fuel - 1) {
                                        Some((rest, j3)) => {
                                            let ghost rest_snap = rest@;
                                            let mut rest = rest;
                                            rest.insert(0, (key, None));
                                            proof {
                                                assert(flat_view(rest@) =~= seq![
                                                    (key@, None::<Seq<char>>),
                                                ] + flat_view(rest_snap));
                                            }
                                            Some((rest, j3))
                                        },
                                        None => None,
                                    }
                                } else if s[k4] == '}' {
                                    let mut out: Vec<(Vec<char>, Option<Vec<char>>)> = Vec::new();
                                    out.push((key, None));
                                    proof {
                                        assert(flat_view(out@) =~= seq![
                                            (key@, None::<Seq<char>>),
                                        ]);
                                    }
                                    Some((out, k4 + 1))
                                } else {
                                    None
                                }
                            },
                            None => None,
                        }
                    }
                } else {
                    None
                }
            },
            None => None,
        }
    } else {
        None
    }
}

/// Reads an array of objects; mirrors [`spec_obj_array`].
fn obj_array(s: &Vec<char>, i: usize, fuel: usize) -> (r: Option<
    (Vec<Vec<(Vec<char>, Option<Vec<char>>)>>, usize),
>)
    requires
        i <= s@.len(),
    ensures
        (match r {
            Some((os, j)) => spec_obj_array(s@, i as int, fuel as nat) == Some(
                (objs_view(os@), j as int),
            ) && j <= s@.len(),
            None => spec_obj_array(s@, i as int, fuel as nat) is None,
        }),
    decreases fuel,
{
    if fuel == 0 {
        return None;
    }
    let k = ws_end(s, i);
    if k >= s.len() {
        return None;
    }
    let ch = s[k];
    if ch == ']' {
        let out: Vec<Vec<(Vec<char>, Option<Vec<char>>)>> = Vec::new();
        proof {
            assert(objs_view(out@) =~= Seq::<Seq<(Seq<char>, Option<Seq<char>>)>>::empty());
        }
        Some((out, k + 1))
    } else if ch == '{' {
        match flat_fields(s, k + 1, fuel - 1) {
            Some((fs, j)) => {
                let k2 = ws_end(s, j);
                if k2 >= s.len() {
                    None
                } else if s[k2] == ',' {
                    match obj_array(s, k2 + 1, fuel - 1) {
                        Some((rest, j2)) => {
                            let ghost fs_snap = fs@;
                            let ghost rest_snap = rest@;
                            let mut rest = rest;
                            rest.insert(0, fs);
                            proof {
                                assert(objs_view(rest@) =~= seq![flat_view(fs_snap)] + objs_view(
                                    rest_snap,
                                ));
                            }
                            Some((rest, j2))
                        },
                        None => None,
                    }
                } else if s[k2] == ']' {
                    let ghost fs_snap = fs@;
                    let mut out: Vec<Vec<(Vec<char>, Option<Vec<char>>)>> = Vec::new();
                    out.push(fs);
                    proof {
                        assert(objs_view(out@) =~= seq![flat_view(fs_snap)]);
                    }
                    Some((out, k2 + 1))
                } else {
                    None
                }
            },
            None => None,
        }
    } else {
        None
    }
}

/// Reads the top-level configuration fields; mirrors [`spec_config_fields`].
fn config_fields(s: &Vec<char>, i: usize, fuel: usize) -> (r: Option<
    (Vec<(Vec<char>, CfgVal)>, usize),
>)
    requires
        i <= s@.len(),
    ensures
        (match r {
            Some((fs, j)) => spec_config_fields(s@, i as int, fuel as nat) == Some(
                (cfg_fields_view(fs@), j as int),
            ) && j <= s@.len(),
            None => spec_config_fields(s@, i as int, fuel as nat) is None,
        }),
    decreases fuel, 1int,
{
    if fuel == 0 {
        return None;
    }
    let k = ws_end(s, i);
    if k >= s.len() {
        return None;
    }
    let ch = s[k];
    if ch == '}' {
        let out: Vec<(Vec<char>, CfgVal)> = Vec::new();
        proof {
            assert(cfg_fields_view(out@) =~= Seq::<(Seq<char>, SpecCfgVal)>::empty());
        }
        Some((out, k + 1))
    } else if ch == '"' {
        match crate::vdf::take_quoted(s, k + 1) {
            Some((key, j)) => {
                let k2 = ws_end(s, j);
                if k2 < s.len() && s[k2] == ':' {
                    let k3 = ws_end(s, k2 + 1);
                    if k3 >= s.len() {
                        None
                    } else if s[k3] == '"' {
                        match crate::vdf::take_quoted(s, k3 + 1) {
                            Some((val, j2)) => config_after(s, j2, fuel, key, CfgVal::Text(val)),
                            None => None,
                        }
                    } else if s[k3] == '[' {
                        match obj_array(s, k3 + 1, fuel - 1) {
                            Some((objs, j2)) => config_after(s, j2, fuel, key, CfgVal::Objs(objs)),
                            None => match skip_arr_body(s, k3 + 1, fuel - 1) {
                                Some(j2) => config_after(s, j2, fuel, key, CfgVal::Other),
                                None => None,
                            },
                        }
                    } else {
                        match skip_value(s, k2 + 1, fuel - 1) {
                            Some(j2) => config_after(s, j2, fuel, key, CfgVal::Other),
                            None => None,
                        }
                    }
                } else {
                    None
                }
            },
            None => None,
        }
    } else {
        None
    }
}

/// Continuation after one top-level member; mirrors [`spec_config_after`].
fn config_after(s: &Vec<char>, j: usize, fuel: usize, key: Vec<char>, val: CfgVal) -> (r: Option<
    (Vec<(Vec<char>, CfgVal)>, usize),
>)
    requires
        j <= s@.len(),
    ensures
        (match r {
            Some((fs, j2)) => spec_config_after(s@, j as int, fuel as nat, key@, cfg_val_view(val))
                == Some((cfg_fields_view(fs@), j2 as int)) && j2 <= s@.len(),
            None => spec_config_after(s@, j as int, fuel as nat, key@, cfg_val_view(val)) is None,
        }),
    decreases fuel, 0int,
{
    if fuel == 0 {
        return None;
    }
    let k = ws_end(s, j);
    if k >= s.len() {
        return None;
    }
    let ghost key_snap = key@;
    let ghost val_snap = cfg_val_view(val);
    if s[k] == ',' {
        match config_fields(s, k + 1, fuel - 1) {
            Some((rest, j2)) => {
                let ghost rest_snap = rest@;
                let mut rest = rest;
                rest.insert(0, (key, val));
                proof {
                    assert(cfg_fields_view(rest@) =~= seq![(key_snap, val_snap)]
                        + cfg_fields_view(rest_snap));
                }
                Some((rest, j2))
            },
            None => None,
        }
    } else if s[k] == '}' {
        let mut out: Vec<(Vec<char>, CfgVal)> = Vec::new();
        out.push((key, val));
        proof {
            assert(cfg_fields_view(out@) =~= seq![(key_snap, val_snap)]);
        }
        Some((out, k + 1))
    } else {
        None
    }
}

/// Parses a whole configuration document; returns exactly the fields that
/// [`spec_config_doc`] describes.
pub fn parse_config_doc(s: &Vec<char>) -> (r: Option<Vec<(Vec<char>, CfgVal)>>)
    requires
        s@.len() < usize::MAX,
    ensures
        (match r {
            Some(fs) => spec_config_doc(s@) == Some(cfg_fields_view(fs@)),
            None => spec_config_doc(s@) is None,
        }),
{
    let k = ws_end(s, 0);
    if k >= s.len() || s[k] != '{' {
        return None;
    }
    match config_fields(s, k + 1, s.len() + 1) {
        Some((fs, j)) => {
            if ws_end(s, j) == s.len() {
                Some(fs)
            } else {
                None
            }
        },
        None => None,
    }
}

} // verus!
