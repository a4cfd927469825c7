//! Parser for the nested key-value text format used by the package manager's
//! library descriptor and per-application install manifests.
//!
//! A document is one quoted root key followed by a braced body. A body is a
//! sequence of `"key" "value"` pairs and `"key" { ... }` sub-objects. The
//! specification functions define the grammar; the executable parser returns
//! exactly what they describe. Recursive grammar productions carry an explicit
//! termination bound (`fuel`); every recursive step consumes input, so a bound
//! of one more than the input length never cuts a parse short.

use vstd::prelude::*;

verus! {

/// Whitespace accepted between tokens.
pub open spec fn is_ws(c: char) -> bool {
    c == ' ' || c == '\t' || c == '\n' || c == '\r'
}

/// Index of the first non-whitespace character at or after `i`.
pub open spec fn skip_ws(s: Seq<char>, i: int) -> int
    decreases s.len() - i
        when 0 <= i <= s.len()
{
    if i < s.len() && is_ws(s[i]) {
        skip_ws(s, i + 1)
    } else {
        i
    }
}

/// Replacement character for a backslash escape inside a quoted string, or
/// `None` when the escape is not recognised.
pub open spec fn escape_char(c: char) -> Option<char> {
    if c == '"' {
        Some('"')
    } else if c == '\\' {
        Some('\\')
    } else if c == '/' {
        Some('/')
    } else if c == 'n' {
        Some('\n')
    } else if c == 't' {
        Some('\t')
    } else if c == 'r' {
        Some('\r')
    } else {
        None
    }
}

/// Content of a quoted string whose opening quote stands just before `i`,
/// together with the index one past the closing quote.
pub open spec fn scan_quoted(s: Seq<char>, i: int) -> Option<(Seq<char>, int)>
    decreases s.len() - i
        when 0 <= i <= s.len()
{
    if i >= s.len() {
        None
    } else if s[i] == '"' {
        Some((Seq::<char>::empty(), i + 1))
    } else if s[i] == '\\' {
        if i + 2 <= s.len() {
            match escape_char(s[i + 1]) {
                Some(c) => match scan_quoted(s, i + 2) {
                    Some((rest, j)) => Some((seq![c] + rest, j)),
                    None => None,
                },
                None => None,
            }
        } else {
            None
        }
    } else {
        match scan_quoted(s, i + 1) {
            Some((rest, j)) => Some((seq![s[i]] + rest, j)),
            None => None,
        }
    }
}

/// Index one past the brace that closes an object whose opening brace stands
/// just before `i`, skipping its content without interpreting it.
pub open spec fn spec_skip_obj(s: Seq<char>, i: int, fuel: nat) -> Option<int>
    decreases fuel,
{
    if fuel == 0 {
        None
    } else {
        let k = skip_ws(s, i);
        if !(0 <= i <= s.len()) || k >= s.len() {
            None
        } else if s[k] == '}' {
            Some(k + 1)
        } else if s[k] == '"' {
            match scan_quoted(s, k + 1) {
                Some((c, j)) => spec_skip_obj(s, j, (fuel - 1) as nat),
                None => None,
            }
        } else if s[k] == '{' {
            match spec_skip_obj(s, k + 1, (fuel - 1) as nat) {
                Some(j) => spec_skip_obj(s, j, (fuel - 1) as nat),
                None => None,
            }
        } else {
            None
        }
    }
}

/// Body of an object whose every member is a `"key" "value"` pair of plain
/// strings, read from just after the opening brace; yields the pairs in
/// source order and the index one past the closing brace.
pub open spec fn spec_str_pairs(s: Seq<char>, i: int, fuel: nat) -> Option<
    (Seq<(Seq<char>, Seq<char>)>, int),
>
    decreases fuel,
{
    if fuel == 0 {
        None
    } else {
        let k = skip_ws(s, i);
        if !(0 <= i <= s.len()) || k >= s.len() {
            None
        } else if s[k] == '}' {
            Some((Seq::<(Seq<char>, Seq<char>)>::empty(), k + 1))
        } else if s[k] == '"' {
            match scan_quoted(s, k + 1) {
                Some((key, j)) => {
                    let k2 = skip_ws(s, j);
                    if k2 < s.len() && s[k2] == '"' {
                        match scan_quoted(s, k2 + 1) {
                            Some((val, j2)) => match spec_str_pairs(s, j2, (fuel - 1) as nat) {
                                Some((rest, j3)) => Some((seq![(key, val)] + rest, j3)),
                                None => None,
                            },
                            None => None,
                        }
                    } else {
                        None
                    }
                },
                None => None,
            }
        } else {
            None
        }
    }
}

/// Value of one field of an object body, as far as this parser interprets it:
/// a plain string, a sub-object of plain string pairs, or a sub-object of any
/// other shape, skipped.
pub enum SpecFieldVal {
    Text(Seq<char>),
    Pairs(Seq<(Seq<char>, Seq<char>)>),
    Other,
}

/// Fields of an object body read from just after the opening brace. A string
/// value is kept; a sub-object is kept as `Pairs` when it consists of plain
/// string pairs and skipped as `Other` otherwise.
pub open spec fn spec_fields(s: Seq<char>, i: int, fuel: nat) -> Option<
    (Seq<(Seq<char>, SpecFieldVal)>, int),
>
    decreases fuel,
{
    if fuel == 0 {
        None
    } else {
        let k = skip_ws(s, i);
        if !(0 <= i <= s.len()) || k >= s.len() {
            None
        } else if s[k] == '}' {
            Some((Seq::<(Seq<char>, SpecFieldVal)>::empty(), k + 1))
        } else if s[k] == '"' {
            match scan_quoted(s, k + 1) {
                Some((key, j)) => {
                    let k2 = skip_ws(s, j);
                    if k2 >= s.len() {
                        None
                    } else if s[k2] == '"' {
                        match scan_quoted(s, k2 + 1) {
                            Some((val, j2)) => match spec_fields(s, j2, (fuel - 1) as nat) {
                                Some((rest, j3)) => Some(
                                    (seq![(key, SpecFieldVal::Text(val))] + rest, j3),
                                ),
                                None => None,
                            },
                            None => None,
                        }
                    } else if s[k2] == '{' {
                        match spec_str_pairs(s, k2 + 1, (fuel - 1) as nat) {
                            Some((ps, j2)) => match spec_fields(s, j2, (fuel - 1) as nat) {
                                Some((rest, j3)) => Some(
                                    (seq![(key, SpecFieldVal::Pairs(ps))] + rest, j3),
                                ),
                                None => None,
                            },
                            None => match spec_skip_obj(s, k2 + 1, (fuel - 1) as nat) {
                                Some(j2) => match spec_fields(s, j2, (fuel - 1) as nat) {
                                    Some((rest, j3)) => Some(
                                        (seq![(key, SpecFieldVal::Other)] + rest, j3),
                                    ),
                                    None => None,
                                },
                                None => None,
                            },
                        }
                    } else {
                        None
                    }
                },
                None => None,
            }
        } else {
            None
        }
    }
}

/// Entries of a body whose every member is a `"key" { fields }` sub-object,
/// read from just after the opening brace.
pub open spec fn spec_entry_list(s: Seq<char>, i: int, fuel: nat) -> Option<
    (Seq<(Seq<char>, Seq<(Seq<char>, SpecFieldVal)>)>, int),
>
    decreases fuel,
{
    if fuel == 0 {
        None
    } else {
        let k = skip_ws(s, i);
        if !(0 <= i <= s.len()) || k >= s.len() {
            None
        } else if s[k] == '}' {
            Some((Seq::<(Seq<char>, Seq<(Seq<char>, SpecFieldVal)>)>::empty(), k + 1))
        } else if s[k] == '"' {
            match scan_quoted(s, k + 1) {
                Some((key, j)) => {
                    let k2 = skip_ws(s, j);
                    if k2 < s.len() && s[k2] == '{' {
                        match spec_fields(s, k2 + 1, (fuel - 1) as nat) {
                            Some((fs, j2)) => match spec_entry_list(s, j2, (fuel - 1) as nat) {
                                Some((rest, j3)) => Some((seq![(key, fs)] + rest, j3)),
                                None => None,
                            },
                            None => None,
                        }
                    } else {
                        None
                    }
                },
                None => None,
            }
        } else {
            None
        }
    }
}

/// Canonical termination bound for a document of length `n`: each recursive
/// grammar step consumes at least one character first.
pub open spec fn doc_fuel(n: nat) -> nat {
    n + 1
}

/// A whole flat document: one quoted root key, then a braced body of fields,
/// then only whitespace. This is the shape of an install manifest.
pub open spec fn spec_flat_doc(s: Seq<char>) -> Option<Seq<(Seq<char>, SpecFieldVal)>> {
    let k = skip_ws(s, 0);
    if k < s.len() && s[k] == '"' {
        match scan_quoted(s, k + 1) {
            Some((root, j)) => {
                let k2 = skip_ws(s, j);
                if k2 < s.len() && s[k2] == '{' {
                    match spec_fields(s, k2 + 1, doc_fuel(s.len())) {
                        Some((fs, j2)) => if skip_ws(s, j2) == s.len() {
                            Some(fs)
                        } else {
                            None
                        },
                        None => None,
                    }
                } else {
                    None
                }
            },
            None => None,
        }
    } else {
        None
    }
}

/// A whole nested document: one quoted root key, then a braced body whose
/// members are each `"key" { fields }`, then only whitespace. This is the
/// shape of the library descriptor.
pub open spec fn spec_nested_doc(s: Seq<char>) -> Option<
    Seq<(Seq<char>, Seq<(Seq<char>, SpecFieldVal)>)>,
> {
    let k = skip_ws(s, 0);
    if k < s.len() && s[k] == '"' {
        match scan_quoted(s, k + 1) {
            Some((root, j)) => {
                let k2 = skip_ws(s, j);
                if k2 < s.len() && s[k2] == '{' {
                    match spec_entry_list(s, k2 + 1, doc_fuel(s.len())) {
                        Some((es, j2)) => if skip_ws(s, j2) == s.len() {
                            Some(es)
                        } else {
                            None
                        },
                        None => None,
                    }
                } else {
                    None
                }
            },
            None => None,
        }
    } else {
        None
    }
}

/// Executable counterpart of [`SpecFieldVal`].
pub enum FieldVal {
    Text(Vec<char>),
    Pairs(Vec<(Vec<char>, Vec<char>)>),
    Other,
}

/// Specification-level reading of an executable field value.
pub open spec fn field_val_view(f: FieldVal) -> SpecFieldVal {
    match f {
        FieldVal::Text(v) => SpecFieldVal::Text(v@),
        FieldVal::Pairs(ps) => SpecFieldVal::Pairs(pairs_view(ps@)),
        FieldVal::Other => SpecFieldVal::Other,
    }
}

/// Specification-level reading of a string-pair list.
pub open spec fn pairs_view(ps: Seq<(Vec<char>, Vec<char>)>) -> Seq<(Seq<char>, Seq<char>)> {
    ps.map_values(|p: (Vec<char>, Vec<char>)| (p.0@, p.1@))
}

/// Specification-level reading of a field list.
pub open spec fn fields_view(fs: Seq<(Vec<char>, FieldVal)>) -> Seq<(Seq<char>, SpecFieldVal)> {
    fs.map_values(|f: (Vec<char>, FieldVal)| (f.0@, field_val_view(f.1)))
}

/// Specification-level reading of an entry list.
pub open spec fn entries_view(es: Seq<(Vec<char>, Vec<(Vec<char>, FieldVal)>)>) -> Seq<
    (Seq<char>, Seq<(Seq<char>, SpecFieldVal)>),
> {
    es.map_values(|e: (Vec<char>, Vec<(Vec<char>, FieldVal)>)| (e.0@, fields_view(e.1@)))
}

/// First index at or after `i` holding a non-whitespace character.
fn ws_end(s: &Vec<char>, i: usize) -> (j: usize)
    requires
        i <= s@.len(),
    ensures
        j == skip_ws(s@, i as int),
        i <= j <= s@.len(),
{
    let mut k: usize = i;
    while k < s.len() && (s[k] == ' ' || s[k] == '\t' || s[k] == '\n' || s[k] == '\r')
        invariant
            i <= k <= s@.len(),
            skip_ws(s@, i as int) == skip_ws(s@, k as int),
        decreases s@.len() - k,
    {
        k = k + 1;
    }
    k
}

/// Reads the content of a quoted string whose opening quote stands just
/// before `i`; returns the unescaped content and the index one past the
/// closing quote.
pub(crate) fn take_quoted(s: &Vec<char>, i: usize) -> (r: Option<(Vec<char>, usize)>)
    requires
        i <= s@.len(),
    ensures
        (match r {
            Some((c, j)) => scan_quoted(s@, i as int) == Some((c@, j as int)) && i < j <= s@.len(),
            None => scan_quoted(s@, i as int) is None,
        }),
    decreases s@.len() - i,
{
    if i >= s.len() {
        return None;
    }
    let ch = s[i];
    if ch == '"' {
        let out: Vec<char> = Vec::new();
        proof {
            assert(out@ =~= Seq::<char>::empty());
        }
        return Some((out, i + 1));
    }
    if ch == '\\' {
        if i + 1 < s.len() {
            let e = s[i + 1];
            let ec: Option<char> = if e == '"' {
                Some('"')
            } else if e == '\\' {
                Some('\\')
            } else if e == '/' {
                Some('/')
            } else if e == 'n' {
                Some('\n')
            } else if e == 't' {
                Some('\t')
            } else if e == 'r' {
                Some('\r')
            } else {
                None
            };
            match ec {
                Some(c) => match take_quoted(s, i + 2) {
                    Some((rest, j)) => {
                        let mut rest = rest;
                        rest.insert(0, c);
                        proof {
                            assert(rest@ =~= seq![c] + rest@.subrange(1, rest@.len() as int));
                        }
                        Some((rest, j))
                    },
                    None => None,
                },
                None => None,
            }
        } else {
            None
        }
    } else {
        match take_quoted(s, i + 1) {
            Some((rest, j)) => {
                let mut rest = rest;
                rest.insert(0, ch);
                proof {
                    assert(rest@ =~= seq![ch] + rest@.subrange(1, rest@.len() as int));
                }
                Some((rest, j))
            },
            None => None,
        }
    }
}

/// Skips an object body without interpreting it; mirrors [`spec_skip_obj`].
fn skip_obj(s: &Vec<char>, i: usize, fuel: usize) -> (r: Option<usize>)
    requires
        i <= s@.len(),
    ensures
        (match r {
            Some(j) => spec_skip_obj(s@, i as int, fuel as nat) == Some(j as int) && j <= s@.len(),
            None => spec_skip_obj(s@, i as int, fuel as nat) is None,
        }),
    decreases fuel,
{
    if fuel == 0 {
        return None;
    }
    let k = ws_end(s, i);
    if k >= s.len() {
        return None;
    }
    let ch = s[k];
    if ch == '}' {
        Some(k + 1)
    } else if ch == '"' {
        match take_quoted(s, k + 1) {
            Some((c, j)) => skip_obj(s, j, fuel - 1),
            None => None,
        }
    } else if ch == '{' {
        match skip_obj(s, k + 1, fuel - 1) {
            Some(j) => skip_obj(s, j, fuel - 1),
            None => None,
        }
    } else {
        None
    }
}

/// Reads an object body of plain string pairs; mirrors [`spec_str_pairs`].
fn str_pairs(s: &Vec<char>, i: usize, fuel: usize) -> (r: Option<
    (Vec<(Vec<char>, Vec<char>)>, usize),
>)
    requires
        i <= s@.len(),
    ensures
        (match r {
            Some((ps, j)) => spec_str_pairs(s@, i as int, fuel as nat) == Some(
                (pairs_view(ps@), j as int),
            ) && j <= s@.len(),
            None => spec_str_pairs(s@, i as int, fuel as nat) is None,
        }),
    decreases fuel,
{
    if fuel == 0 {
        return None;
    }
    let k = ws_end(s, i);
    if k >= s.len() {
        return None;
    }
    let ch = s[k];
    if ch == '}' {
        let out: Vec<(Vec<char>, Vec<char>)> = Vec::new();
        proof {
            assert(pairs_view(out@) =~= Seq::<(Seq<char>, Seq<char>)>::empty());
        }
        Some((out, k + 1))
    } else if ch == '"' {
        match take_quoted(s, k + 1) {
            Some((key, j)) => {
                let k2 = ws_end(s, j);
                if k2 < s.len() && s[k2] == '"' {
                    match take_quoted(s, k2 + 1) {
                        Some((val, j2)) => match str_pairs(s, j2, fuel - 1) {
                            Some((rest, j3)) => {
                                let ghost rest_snap = rest@;
                                let mut rest = rest;
                                rest.insert(0, (key, val));
                                proof {
                                    assert(pairs_view(rest@) =~= seq![(key@, val@)] + pairs_view(
                                        rest_snap,
                                    ));
                                }
                                Some((rest, j3))
                            },
                            None => None,
                        },
                        None => None,
                    }
                } else {
                    None
                }
            },
            None => None,
        }
    } else {
        None
    }
}

/// Reads the fields of an object body; mirrors [`spec_fields`].
fn obj_fields(s: &Vec<char>, i: usize, fuel: usize) -> (r: Option<
    (Vec<(Vec<char>, FieldVal)>, usize),
>)
    requires
        i <= s@.len(),
    ensures
        (match r {
            Some((fs, j)) => spec_fields(s@, i as int, fuel as nat) == Some(
                (fields_view(fs@), j as int),
            ) && j <= s@.len(),
            None => spec_fields(s@, i as int, fuel as nat) is None,
        }),
    decreases fuel,
{
    if fuel == 0 {
        return None;
    }
    let k = ws_end(s, i);
    if k >= s.len() {
        return None;
    }
    let ch = s[k];
    if ch == '}' {
        let out: Vec<(Vec<char>, FieldVal)> = Vec::new();
        proof {
            assert(fields_view(out@) =~= Seq::<(Seq<char>, SpecFieldVal)>::empty());
        }
        Some((out, k + 1))
    } else if ch == '"' {
        match take_quoted(s, k + 1) {
            Some((key, j)) => {
                let k2 = ws_end(s, j);
                if k2 >= s.len() {
                    None
                } else if s[k2] == '"' {
                    match take_quoted(s, k2 + 1) {
                        Some((val, j2)) => match obj_fields(s, j2, fuel - 1) {
                            Some((rest, j3)) => {
                                let ghost rest_snap = rest@;
                                let mut rest = rest;
                                rest.insert(0, (key, FieldVal::Text(val)));
                                proof {
                                    assert(fields_view(rest@) =~= seq![
                                        (key@, SpecFieldVal::Text(val@)),
                                    ] + fields_view(rest_snap));
                                }
                                Some((rest, j3))
                            },
                            None => None,
                        },
                        None => None,
                    }
                } else if s[k2] == '{' {
                    match str_pairs(s, k2 + 1, fuel - 1) {
                        Some((ps, j2)) => match obj_fields(s, j2, fuel - 1) {
                            Some((rest, j3)) => {
                                let ghost ps_snap = ps@;
                                let ghost rest_snap = rest@;
                                let mut rest = rest;
                                rest.insert(0, (key, FieldVal::Pairs(ps)));
                                proof {
                                    assert(fields_view(rest@) =~= seq![
                                        (key@, SpecFieldVal::Pairs(pairs_view(ps_snap))),
                                    ] + fields_view(rest_snap));
                                }
                                Some((rest, j3))
                            },
                            None => None,
                        },
                        None => match skip_obj(s, k2 + 1, fuel - 1) {
                            Some(j2) => match obj_fields(s, j2, fuel - 1) {
                                Some((rest, j3)) => {
                                    let ghost rest_snap = rest@;
                                    let mut rest = rest;
                                    rest.insert(0, (key, FieldVal::Other));
                                    proof {
                                        assert(fields_view(rest@) =~= seq![
                                            (key@, SpecFieldVal::Other),
                                        ] + fields_view(rest_snap));
                                    }
                                    Some((rest, j3))
                                },
                                None => None,
                            },
                            None => None,
                        },
                    }
                } else {
                    None
                }
            },
            None => None,
        }
    } else {
        None
    }
}

/// Reads a body of `"key" { fields }` entries; mirrors [`spec_entry_list`].
fn entry_list(s: &Vec<char>, i: usize, fuel: usize) -> (r: Option<
    (Vec<(Vec<char>, Vec<(Vec<char>, FieldVal)>)>, usize),
>)
    requires
        i <= s@.len(),
    ensures
        (match r {
            Some((es, j)) => spec_entry_list(s@, i as int, fuel as nat) == Some(
                (entries_view(es@), j as int),
            ) && j <= s@.len(),
            None => spec_entry_list(s@, i as int, fuel as nat) is None,
        }),
    decreases fuel,
{
    if fuel == 0 {
        return None;
    }
    let k = ws_end(s, i);
    if k >= s.len() {
        return None;
    }
    let ch = s[k];
    if ch == '}' {
        let out: Vec<(Vec<char>, Vec<(Vec<char>, FieldVal)>)> = Vec::new();
        proof {
            assert(entries_view(out@) =~= Seq::<
                (Seq<char>, Seq<(Seq<char>, SpecFieldVal)>),
            >::empty());
        }
        Some((out, k + 1))
    } else if ch == '"' {
        match take_quoted(s, k + 1) {
            Some((key, j)) => {
                let k2 = ws_end(s, j);
                if k2 < s.len() && s[k2] == '{' {
                    match obj_fields(s, k2 + 1, fuel - 1) {
                        Some((fs, j2)) => match entry_list(s, j2, fuel - 1) {
                            Some((rest, j3)) => {
                                let ghost fs_snap = fs@;
                                let ghost rest_snap = rest@;
                                let mut rest = rest;
                                rest.insert(0, (key, fs));
                                proof {
                                    assert(entries_view(rest@) =~= seq![
                                        (key@, fields_view(fs_snap)),
                                    ] + entries_view(rest_snap));
                                }
                                Some((rest, j3))
                            },
                            None => None,
                        },
                        None => None,
                    }
                } else {
                    None
                }
            },
            None => None,
        }
    } else {
        None
    }
}

/// Parses a whole flat document (an install manifest); returns exactly the
/// fields that [`spec_flat_doc`] describes.
pub fn parse_flat_doc(s: &Vec<char>) -> (r: Option<Vec<(Vec<char>, FieldVal)>>)
    requires
        s@.len() < usize::MAX,
    ensures
        (match r {
            Some(fs) => spec_flat_doc(s@) == Some(fields_view(fs@)),
            None => spec_flat_doc(s@) is None,
        }),
{
    let k = ws_end(s, 0);
    if k >= s.len() || s[k] != '"' {
        return None;
    }
    match take_quoted(s, k + 1) {
        Some((root, j)) => {
            let k2 = ws_end(s, j);
            if k2 < s.len() && s[k2] == '{' {
                match obj_fields(s, k2 + 1, s.len() + 1) {
                    Some((fs, j2)) => {
                        if ws_end(s, j2) == s.len() {
                            Some(fs)
                        } else {
                            None
                        }
                    },
                    None => None,
                }
            } else {
                None
            }
        },
        None => None,
    }
}

/// Parses a whole nested document (the library descriptor); returns exactly
/// the entries that [`spec_nested_doc`] describes.
pub fn parse_nested_doc(s: &Vec<char>) -> (r: Option<
    Vec<(Vec<char>, Vec<(Vec<char>, FieldVal)>)>,
>)
    requires
        s@.len() < usize::MAX,
    ensures
        (match r {
            Some(es) => spec_nested_doc(s@) == Some(entries_view(es@)),
            None => spec_nested_doc(s@) is None,
        }),
{
    let k = ws_end(s, 0);
    if k >= s.len() || s[k] != '"' {
        return None;
    }
    match take_quoted(s, k + 1) {
        Some((root, j)) => {
            let k2 = ws_end(s, j);
            if k2 < s.len() && s[k2] == '{' {
                match entry_list(s, k2 + 1, s.len() + 1) {
                    Some((es, j2)) => {
                        if ws_end(s, j2) == s.len() {
                            Some(es)
                        } else {
                            None
                        }
                    },
                    None => None,
                }
            } else {
                None
            }
        },
        None => None,
    }
}

} // verus!
