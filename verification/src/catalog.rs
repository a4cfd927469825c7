//! The hotkey catalog: per-asset configuration files parsed into catalog
//! entries, keyed by the asset's directory name.
//!
//! The caller enumerates the asset directory and reads the files; the
//! functions here classify file names, parse configuration content, and
//! assemble the catalog. Within one sub-directory the configuration file is
//! the one whose second dot-separated name component marks it as such; when
//! several match, the last one scanned wins, though every matching file must
//! still parse. Within one configuration object a repeated field keeps its
//! last occurrence.

use vstd::prelude::*;

use crate::errors::AppError;
use crate::json;
use crate::text;

verus! {

/// A named, triggerable action of one asset.
#[derive(Debug)]
pub struct Hotkey {
    pub hotkey_id: String,
    pub name: String,
    pub trigger_file: String,
}

/// One asset's catalog entry: its model identifier and its hotkeys in source
/// order.
#[derive(Debug)]
pub struct CatalogEntry {
    pub asset_id: String,
    pub hotkeys: Vec<Hotkey>,
}

/// A file of an asset sub-directory: its name and its text content.
#[derive(Debug)]
pub struct AssetFile {
    pub file_name: String,
    pub content: Vec<char>,
}

/// One asset sub-directory: its name and its files.
#[derive(Debug)]
pub struct AssetDirListing {
    pub dir_name: String,
    pub files: Vec<AssetFile>,
}

/// Specification-level reading of one hotkey.
pub open spec fn hotkey_view(h: Hotkey) -> (Seq<char>, Seq<char>, Seq<char>) {
    (h.hotkey_id@, h.name@, h.trigger_file@)
}

/// Specification-level reading of a hotkey list.
pub open spec fn hotkeys_view(hs: Seq<Hotkey>) -> Seq<(Seq<char>, Seq<char>, Seq<char>)> {
    hs.map_values(|h: Hotkey| hotkey_view(h))
}

/// Specification-level reading of one catalog entry.
pub open spec fn entry_view(e: CatalogEntry) -> (
    Seq<char>,
    Seq<(Seq<char>, Seq<char>, Seq<char>)>,
) {
    (e.asset_id@, hotkeys_view(e.hotkeys@))
}

/// Specification-level reading of one asset file.
pub open spec fn files_view(fs: Seq<AssetFile>) -> Seq<(Seq<char>, Seq<char>)> {
    fs.map_values(|f: AssetFile| (f.file_name@, f.content@))
}

/// Specification-level reading of a directory listing set.
pub open spec fn dirs_view(ds: Seq<AssetDirListing>) -> Seq<
    (Seq<char>, Seq<(Seq<char>, Seq<char>)>),
> {
    ds.map_values(|d: AssetDirListing| (d.dir_name@, files_view(d.files@)))
}

/// Specification-level reading of a built catalog.
pub open spec fn catalog_view(cs: Seq<(String, CatalogEntry)>) -> Seq<
    (Seq<char>, (Seq<char>, Seq<(Seq<char>, Seq<char>, Seq<char>)>)),
> {
    cs.map_values(|c: (String, CatalogEntry)| (c.0@, entry_view(c.1)))
}

/// Last string value bound to `key` among the top-level configuration
/// fields.
pub open spec fn last_cfg_text(fs: Seq<(Seq<char>, json::SpecCfgVal)>, key: Seq<char>) -> Option<
    Seq<char>,
>
    decreases fs.len(),
{
    if fs.len() == 0 {
        None
    } else if fs.last().0 == key && fs.last().1 is Text {
        Some(fs.last().1->Text_0)
    } else {
        last_cfg_text(fs.drop_last(), key)
    }
}

/// Last object-array value bound to `key` among the top-level configuration
/// fields.
pub open spec fn last_cfg_objs(fs: Seq<(Seq<char>, json::SpecCfgVal)>, key: Seq<char>) -> Option<
    Seq<Seq<(Seq<char>, Option<Seq<char>>)>>,
>
    decreases fs.len(),
{
    if fs.len() == 0 {
        None
    } else if fs.last().0 == key && fs.last().1 is Objs {
        Some(fs.last().1->Objs_0)
    } else {
        last_cfg_objs(fs.drop_last(), key)
    }
}

/// Last string value bound to `key` among one hotkey object's fields.
pub open spec fn last_flat_text(
    fs: Seq<(Seq<char>, Option<Seq<char>>)>,
    key: Seq<char>,
) -> Option<Seq<char>>
    decreases fs.len(),
{
    if fs.len() == 0 {
        None
    } else if fs.last().0 == key && fs.last().1 is Some {
        Some(fs.last().1->0)
    } else {
        last_flat_text(fs.drop_last(), key)
    }
}

/// One hotkey from one object's fields: its id, name and trigger file, all
/// three required as strings.
pub open spec fn spec_hotkey_of(fs: Seq<(Seq<char>, Option<Seq<char>>)>) -> Option<
    (Seq<char>, Seq<char>, Seq<char>),
> {
    match last_flat_text(fs, "HotkeyID"@) {
        Some(id) => match last_flat_text(fs, "Name"@) {
            Some(n) => match last_flat_text(fs, "File"@) {
                Some(f) => Some((id, n, f)),
                None => None,
            },
            None => None,
        },
        None => None,
    }
}

/// The hotkeys of an object array, one per element, in order; one malformed
/// element fails the list.
pub open spec fn spec_hotkeys_of(objs: Seq<Seq<(Seq<char>, Option<Seq<char>>)>>) -> Option<
    Seq<(Seq<char>, Seq<char>, Seq<char>)>,
>
    decreases objs.len(),
{
    if objs.len() == 0 {
        Some(Seq::<(Seq<char>, Seq<char>, Seq<char>)>::empty())
    } else {
        match spec_hotkey_of(objs[0]) {
            Some(h) => match spec_hotkeys_of(objs.drop_first()) {
                Some(rest) => Some(seq![h] + rest),
                None => None,
            },
            None => None,
        }
    }
}

/// The catalog entry described by one configuration document: its model
/// identifier and its hotkey list, both required.
pub open spec fn spec_catalog_entry(s: Seq<char>) -> Option<
    (Seq<char>, Seq<(Seq<char>, Seq<char>, Seq<char>)>),
> {
    match json::spec_config_doc(s) {
        Some(fs) => match last_cfg_text(fs, "ModelID"@) {
            Some(m) => match last_cfg_objs(fs, "Hotkeys"@) {
                Some(objs) => match spec_hotkeys_of(objs) {
                    Some(hks) => Some((m, hks)),
                    None => None,
                },
                None => None,
            },
            None => None,
        },
        None => None,
    }
}

/// First index at or after `i` holding the character `c`, or the length when
/// there is none.
pub open spec fn find_char_from(s: Seq<char>, i: int, c: char) -> int
    decreases s.len() - i
        when 0 <= i <= s.len()
{
    if i < s.len() && s[i] != c {
        find_char_from(s, i + 1, c)
    } else {
        i
    }
}

/// A file name names a configuration file when its second dot-separated
/// component is `vtube`.
pub open spec fn spec_is_config_name(s: Seq<char>) -> bool {
    let d1 = find_char_from(s, 0, '.');
    d1 < s.len() && s.subrange(d1 + 1, find_char_from(s, d1 + 1, '.')) == "vtube"@
}

/// First index at or after `i` holding a dot.
fn find_dot(s: &Vec<char>, i: usize) -> (j: usize)
    requires
        i <= s@.len(),
    ensures
        j == find_char_from(s@, i as int, '.'),
        i <= j <= s@.len(),
{
    let mut k: usize = i;
    while k < s.len() && s[k] != '.'
        invariant
            i <= k <= s@.len(),
            find_char_from(s@, i as int, '.') == find_char_from(s@, k as int, '.'),
        decreases s@.len() - k,
    {
        k = k + 1;
    }
    k
}

/// Classifies a file name, as [`spec_is_config_name`] does.
pub fn is_config_file_name(name: &str) -> (b: bool)
    ensures
        b == spec_is_config_name(name@),
{
    let s = text::str_to_chars(name);
    let d1 = find_dot(&s, 0);
    if d1 >= s.len() {
        return false;
    }
    let d2 = find_dot(&s, d1 + 1);
    let mut comp: Vec<char> = Vec::new();
    let mut k: usize = d1 + 1;
    proof {
        assert(comp@ =~= s@.subrange(d1 as int + 1, k as int));
    }
    while k < d2
        invariant
            d1 + 1 <= k <= d2 <= s@.len(),
            comp@ == s@.subrange(d1 as int + 1, k as int),
        decreases d2 - k,
    {
        comp.push(s[k]);
        k = k + 1;
        proof {
            assert(comp@ =~= s@.subrange(d1 as int + 1, k as int));
        }
    }
    text::chars_eq_str(&comp, "vtube")
}

/// Index of the last configuration file of a directory listing.
pub open spec fn last_config_ix(files: Seq<(Seq<char>, Seq<char>)>) -> Option<int>
    decreases files.len(),
{
    if files.len() == 0 {
        None
    } else if spec_is_config_name(files.last().0) {
        Some(files.len() - 1)
    } else {
        last_config_ix(files.drop_last())
    }
}

/// Every configuration file of a directory listing parses.
pub open spec fn dir_configs_ok(files: Seq<(Seq<char>, Seq<char>)>) -> bool {
    forall|k: int|
        0 <= k < files.len() ==> (spec_is_config_name((#[trigger] files[k]).0)
            ==> spec_catalog_entry(files[k].1) is Some)
}

/// The catalog described by a set of directory listings: one entry per
/// directory that holds a configuration file, keyed by the directory name,
/// in directory order, built from the last configuration file scanned; any
/// configuration file that fails to parse fails the whole build.
pub open spec fn spec_build(ds: Seq<(Seq<char>, Seq<(Seq<char>, Seq<char>)>)>) -> Option<
    Seq<(Seq<char>, (Seq<char>, Seq<(Seq<char>, Seq<char>, Seq<char>)>))>,
>
    decreases ds.len(),
{
    if ds.len() == 0 {
        Some(Seq::<(Seq<char>, (Seq<char>, Seq<(Seq<char>, Seq<char>, Seq<char>)>))>::empty())
    } else if !dir_configs_ok(ds[0].1) {
        None
    } else {
        match last_config_ix(ds[0].1) {
            None => spec_build(ds.drop_first()),
            Some(ix) => match spec_build(ds.drop_first()) {
                Some(tail) => Some(
                    seq![(ds[0].0, spec_catalog_entry(ds[0].1[ix].1).unwrap())] + tail,
                ),
                None => None,
            },
        }
    }
}

/// Finds the last string field named `key`, as [`last_flat_text`] does.
fn find_last_flat_text(fields: &Vec<(Vec<char>, Option<Vec<char>>)>, key: &str) -> (r: Option<
    usize,
>)
    ensures
        (match r {
            Some(ix) => ix < fields@.len() && (fields@[ix as int].1 matches Some(v)
                && last_flat_text(json::flat_view(fields@), key@) == Some(v@)),
            None => last_flat_text(json::flat_view(fields@), key@) is None,
        }),
{
    let ghost whole = json::flat_view(fields@);
    let mut k: usize = fields.len();
    proof {
        assert(whole.subrange(0, k as int) =~= whole);
    }
    while k > 0
        invariant
            k <= fields@.len(),
            whole == json::flat_view(fields@),
            last_flat_text(whole, key@) == last_flat_text(whole.subrange(0, k as int), key@),
        decreases k,
    {
        let k2 = k - 1;
        let f = &fields[k2];
        proof {
            assert(whole.subrange(0, k as int).last() == whole[k2 as int]);
            assert(whole.subrange(0, k as int).drop_last() =~= whole.subrange(0, k2 as int));
        }
        let is_text: bool = match &f.1 {
            Some(v) => true,
            None => false,
        };
        if is_text && text::chars_eq_str(&f.0, key) {
            return Some(k2);
        }
        k = k2;
    }
    proof {
        assert(whole.subrange(0, 0) =~= Seq::<(Seq<char>, Option<Seq<char>>)>::empty());
    }
    None
}

/// Finds the last string field named `key`, as [`last_cfg_text`] does.
fn find_last_cfg_text(fields: &Vec<(Vec<char>, json::CfgVal)>, key: &str) -> (r: Option<usize>)
    ensures
        (match r {
            Some(ix) => ix < fields@.len() && (fields@[ix as int].1 matches json::CfgVal::Text(v)
                && last_cfg_text(json::cfg_fields_view(fields@), key@) == Some(v@)),
            None => last_cfg_text(json::cfg_fields_view(fields@), key@) is None,
        }),
{
    let ghost whole = json::cfg_fields_view(fields@);
    let mut k: usize = fields.len();
    proof {
        assert(whole.subrange(0, k as int) =~= whole);
    }
    while k > 0
        invariant
            k <= fields@.len(),
            whole == json::cfg_fields_view(fields@),
            last_cfg_text(whole, key@) == last_cfg_text(whole.subrange(0, k as int), key@),
        decreases k,
    {
        let k2 = k - 1;
        let f = &fields[k2];
        proof {
            assert(whole.subrange(0, k as int).last() == whole[k2 as int]);
            assert(whole.subrange(0, k as int).drop_last() =~= whole.subrange(0, k2 as int));
        }
        let is_text: bool = match &f.1 {
            json::CfgVal::Text(v) => true,
            _ => false,
        };
        if is_text && text::chars_eq_str(&f.0, key) {
            return Some(k2);
        }
        k = k2;
    }
    proof {
        assert(whole.subrange(0, 0) =~= Seq::<(Seq<char>, json::SpecCfgVal)>::empty());
    }
    None
}

/// Finds the last object-array field named `key`, as [`last_cfg_objs`] does.
fn find_last_cfg_objs(fields: &Vec<(Vec<char>, json::CfgVal)>, key: &str) -> (r: Option<usize>)
    ensures
        (match r {
            Some(ix) => ix < fields@.len() && (fields@[ix as int].1 matches json::CfgVal::Objs(os)
                && last_cfg_objs(json::cfg_fields_view(fields@), key@) == Some(
                json::objs_view(os@),
            )),
            None => last_cfg_objs(json::cfg_fields_view(fields@), key@) is None,
        }),
{
    let ghost whole = json::cfg_fields_view(fields@);
    let mut k: usize = fields.len();
    proof {
        assert(whole.subrange(0, k as int) =~= whole);
    }
    while k > 0
        invariant
            k <= fields@.len(),
            whole == json::cfg_fields_view(fields@),
            last_cfg_objs(whole, key@) == last_cfg_objs(whole.subrange(0, k as int), key@),
        decreases k,
    {
        let k2 = k - 1;
        let f = &fields[k2];
        proof {
            assert(whole.subrange(0, k as int).last() == whole[k2 as int]);
            assert(whole.subrange(0, k as int).drop_last() =~= whole.subrange(0, k2 as int));
        }
        let is_objs: bool = match &f.1 {
            json::CfgVal::Objs(os) => true,
            _ => false,
        };
        if is_objs && text::chars_eq_str(&f.0, key) {
            return Some(k2);
        }
        k = k2;
    }
    proof {
        assert(whole.subrange(0, 0) =~= Seq::<(Seq<char>, json::SpecCfgVal)>::empty());
    }
    None
}

/// Builds one hotkey from one object's fields, as [`spec_hotkey_of`] does.
fn hotkey_from_fields(fields: &Vec<(Vec<char>, Option<Vec<char>>)>) -> (r: Option<Hotkey>)
    ensures
        (match r {
            Some(h) => spec_hotkey_of(json::flat_view(fields@)) == Some(hotkey_view(h)),
            None => spec_hotkey_of(json::flat_view(fields@)) is None,
        }),
{
    let id_ix = match find_last_flat_text(fields, "HotkeyID") {
        Some(ix) => ix,
        None => {
            return None;
        },
    };
    let name_ix = match find_last_flat_text(fields, "Name") {
        Some(ix) => ix,
        None => {
            return None;
        },
    };
    let file_ix = match find_last_flat_text(fields, "File") {
        Some(ix) => ix,
        None => {
            return None;
        },
    };
    let hotkey_id = match &fields[id_ix].1 {
        Some(v) => text::chars_to_string(v),
        None => {
            return None;
        },
    };
    let name = match &fields[name_ix].1 {
        Some(v) => text::chars_to_string(v),
        None => {
            return None;
        },
    };
    let trigger_file = match &fields[file_ix].1 {
        Some(v) => text::chars_to_string(v),
        None => {
            return None;
        },
    };
    Some(Hotkey { hotkey_id, name, trigger_file })
}

/// Builds the hotkey list of an object array, as [`spec_hotkeys_of`] does.
fn hotkeys_from_objs(objs: &Vec<Vec<(Vec<char>, Option<Vec<char>>)>>) -> (r: Option<Vec<Hotkey>>)
    ensures
        (match r {
            Some(hs) => spec_hotkeys_of(json::objs_view(objs@)) == Some(hotkeys_view(hs@)),
            None => spec_hotkeys_of(json::objs_view(objs@)) is None,
        }),
{
    let ghost whole = json::objs_view(objs@);
    let mut hs: Vec<Hotkey> = Vec::new();
    let mut k: usize = 0;
    proof {
        assert(whole.skip(0) =~= whole);
        assert(hotkeys_view(hs@) =~= Seq::<(Seq<char>, Seq<char>, Seq<char>)>::empty());
    }
    while k < objs.len()
        invariant
            k <= objs@.len(),
            whole == json::objs_view(objs@),
            (match spec_hotkeys_of(whole.skip(k as int)) {
                Some(rest) => spec_hotkeys_of(whole) == Some(hotkeys_view(hs@) + rest),
                None => spec_hotkeys_of(whole) is None,
            }),
        decreases objs@.len() - k,
    {
        let ghost tail = whole.skip(k as int);
        proof {
            assert(tail[0] == whole[k as int]);
            assert(tail.drop_first() =~= whole.skip(k as int + 1));
        }
        let h = match hotkey_from_fields(&objs[k]) {
            Some(h) => h,
            None => {
                return None;
            },
        };
        let ghost hs_snap = hs@;
        let ghost hv = hotkey_view(h);
        hs.push(h);
        proof {
            assert(hotkeys_view(hs@) =~= hotkeys_view(hs_snap) + seq![hv]);
            assert(hotkeys_view(hs_snap) + seq![hv] + spec_hotkeys_of(
                whole.skip(k as int + 1),
            ).unwrap() =~= hotkeys_view(hs_snap) + (seq![hv] + spec_hotkeys_of(
                whole.skip(k as int + 1),
            ).unwrap()));
        }
        k = k + 1;
    }
    proof {
        assert(whole.skip(objs@.len() as int) =~= Seq::<
            Seq<(Seq<char>, Option<Seq<char>>)>,
        >::empty());
        assert(hotkeys_view(hs@) + Seq::<(Seq<char>, Seq<char>, Seq<char>)>::empty()
            =~= hotkeys_view(hs@));
    }
    Some(hs)
}

/// Parses one configuration document into a catalog entry, as
/// [`spec_catalog_entry`] describes.
pub fn parse_catalog_entry(content: &Vec<char>) -> (r: Result<CatalogEntry, AppError>)
    requires
        content@.len() < usize::MAX,
    ensures
        r is Ok <==> spec_catalog_entry(content@) is Some,
        (match r {
            Ok(e) => spec_catalog_entry(content@) == Some(entry_view(e)),
            Err(e) => e == AppError::ParseError,
        }),
{
    let fs = match json::parse_config_doc(content) {
        Some(fs) => fs,
        None => {
            return Err(AppError::ParseError);
        },
    };
    let model_ix = match find_last_cfg_text(&fs, "ModelID") {
        Some(ix) => ix,
        None => {
            return Err(AppError::ParseError);
        },
    };
    let objs_ix = match find_last_cfg_objs(&fs, "Hotkeys") {
        Some(ix) => ix,
        None => {
            return Err(AppError::ParseError);
        },
    };
    let asset_id = match &fs[model_ix].1 {
        json::CfgVal::Text(v) => text::chars_to_string(v),
        _ => {
            return Err(AppError::ParseError);
        },
    };
    match &fs[objs_ix].1 {
        json::CfgVal::Objs(os) => match hotkeys_from_objs(os) {
            Some(hotkeys) => Ok(CatalogEntry { asset_id, hotkeys }),
            None => Err(AppError::ParseError),
        },
        _ => Err(AppError::ParseError),
    }
}

/// Resolves one directory listing: the entry of its last configuration file,
/// nothing when it has none, and a parse failure when any configuration file
/// in it is malformed.
fn dir_entry(files: &Vec<AssetFile>) -> (r: Result<Option<CatalogEntry>, AppError>)
    requires
        forall|k: int| 0 <= k < files@.len() ==> (#[trigger] files@[k]).content@.len() < usize::MAX,
    ensures
        r is Ok <==> dir_configs_ok(files_view(files@)),
        (match r {
            Ok(Some(e)) => (last_config_ix(files_view(files@)) matches Some(ix) && entry_view(e)
                == spec_catalog_entry(files_view(files@)[ix].1).unwrap()),
            Ok(None) => last_config_ix(files_view(files@)) is None,
            Err(e) => e == AppError::ParseError,
        }),
{
    let ghost whole = files_view(files@);
    let mut k: usize = 0;
    while k < files.len()
        invariant
            k <= files@.len(),
            whole == files_view(files@),
            forall|j: int|
                0 <= j < files@.len() ==> (#[trigger] files@[j]).content@.len() < usize::MAX,
            forall|j: int|
                0 <= j < k ==> (spec_is_config_name((#[trigger] whole[j]).0) ==> spec_catalog_entry(
                    whole[j].1,
                ) is Some),
        decreases files@.len() - k,
    {
        let f = &files[k];
        if is_config_file_name(f.file_name.as_str()) {
            match parse_catalog_entry(&f.content) {
                Ok(_) => {},
                Err(e) => {
                    proof {
                        assert(spec_is_config_name((whole[k as int]).0) && spec_catalog_entry(
                            whole[k as int].1,
                        ) is None);
                        assert(!dir_configs_ok(whole));
                    }
                    return Err(AppError::ParseError);
                },
            }
        }
        k = k + 1;
    }
    let mut k: usize = files.len();
    proof {
        assert(whole.subrange(0, k as int) =~= whole);
    }
    while k > 0
        invariant
            k <= files@.len(),
            whole == files_view(files@),
            dir_configs_ok(whole),
            forall|j: int|
                0 <= j < files@.len() ==> (#[trigger] files@[j]).content@.len() < usize::MAX,
            last_config_ix(whole) == last_config_ix(whole.subrange(0, k as int)),
        decreases k,
    {
        let k2 = k - 1;
        let f = &files[k2];
        proof {
            assert(whole.subrange(0, k as int).last() == whole[k2 as int]);
            assert(whole.subrange(0, k as int).drop_last() =~= whole.subrange(0, k2 as int));
        }
        if is_config_file_name(f.file_name.as_str()) {
            match parse_catalog_entry(&f.content) {
                Ok(e) => {
                    return Ok(Some(e));
                },
                Err(_) => {
                    proof {
                        assert(spec_is_config_name((whole[k2 as int]).0));
                        assert(spec_catalog_entry(whole[k2 as int].1) is Some);
                        assert(false);
                    }
                    return Err(AppError::ParseError);
                },
            }
        }
        k = k2;
    }
    proof {
        assert(whole.subrange(0, 0) =~= Seq::<(Seq<char>, Seq<char>)>::empty());
    }
    Ok(None)
}

/// Builds the catalog from the asset directory's sub-directory listings, as
/// [`spec_build`] describes: one entry per sub-directory with a
/// configuration file, keyed by the sub-directory name, in listing order.
pub fn build_catalog(dirs: &Vec<AssetDirListing>) -> (r: Result<
    Vec<(String, CatalogEntry)>,
    AppError,
>)
    requires
        forall|d: int, k: int|
            0 <= d < dirs@.len() && 0 <= k < (#[trigger] dirs@[d]).files@.len() ==> (
            #[trigger] dirs@[d].files@[k]).content@.len() < usize::MAX,
    ensures
        r is Ok <==> spec_build(dirs_view(dirs@)) is Some,
        (match r {
            Ok(cs) => spec_build(dirs_view(dirs@)) == Some(catalog_view(cs@)),
            Err(e) => e == AppError::ParseError,
        }),
{
    let ghost whole = dirs_view(dirs@);
    let mut cs: Vec<(String, CatalogEntry)> = Vec::new();
    let mut k: usize = 0;
    proof {
        assert(whole.skip(0) =~= whole);
        assert(catalog_view(cs@) =~= Seq::<
            (Seq<char>, (Seq<char>, Seq<(Seq<char>, Seq<char>, Seq<char>)>)),
        >::empty());
    }
    while k < dirs.len()
        invariant
            k <= dirs@.len(),
            whole == dirs_view(dirs@),
            forall|d: int, j: int|
                0 <= d < dirs@.len() && 0 <= j < (#[trigger] dirs@[d]).files@.len() ==> (
                #[trigger] dirs@[d].files@[j]).content@.len() < usize::MAX,
            (match spec_build(whole.skip(k as int)) {
                Some(rest) => spec_build(whole) == Some(catalog_view(cs@) + rest),
                None => spec_build(whole) is None,
            }),
        decreases dirs@.len() - k,
    {
        let ghost tail = whole.skip(k as int);
        proof {
            assert(tail[0] == whole[k as int]);
            assert(tail.drop_first() =~= whole.skip(k as int + 1));
        }
        let d = &dirs[k];
        match dir_entry(&d.files) {
            Ok(Some(e)) => {
                let ghost cs_snap = cs@;
                let ghost ev = entry_view(e);
                let name = d.dir_name.clone();
                cs.push((name, e));
                proof {
                    assert(catalog_view(cs@) =~= catalog_view(cs_snap) + seq![(d.dir_name@, ev)]);
                    assert(catalog_view(cs_snap) + seq![(d.dir_name@, ev)] + spec_build(
                        whole.skip(k as int + 1),
                    ).unwrap() =~= catalog_view(cs_snap) + (seq![(d.dir_name@, ev)] + spec_build(
                        whole.skip(k as int + 1),
                    ).unwrap()));
                }
                k = k + 1;
            },
            Ok(None) => {
                k = k + 1;
            },
            Err(e) => {
                return Err(AppError::ParseError);
            },
        }
    }
    proof {
        assert(whole.skip(dirs@.len() as int) =~= Seq::<
            (Seq<char>, Seq<(Seq<char>, Seq<char>)>),
        >::empty());
        assert(catalog_view(cs@) + Seq::<
            (Seq<char>, (Seq<char>, Seq<(Seq<char>, Seq<char>, Seq<char>)>)),
        >::empty() =~= catalog_view(cs@));
    }
    Ok(cs)
}

/// Entry of the catalog under `name`: the last entry with that key, as a map
/// keyed by directory name would hold.
pub fn catalog_lookup<'a>(cs: &'a Vec<(String, CatalogEntry)>, name: &str) -> (r: Option<
    &'a CatalogEntry,
>)
    ensures
        (match r {
            Some(e) => (exists|k: int|
                0 <= k < cs@.len() && (#[trigger] cs@[k]).0@ == name@ && entry_view(cs@[k].1)
                    == entry_view(*e) && (forall|j: int| k < j < cs@.len() ==> cs@[j].0@ != name@)),
            None => (forall|k: int| 0 <= k < cs@.len() ==> (#[trigger] cs@[k]).0@ != name@),
        }),
{
    let mut k: usize = cs.len();
    while k > 0
        invariant
            k <= cs@.len(),
            forall|j: int| k <= j < cs@.len() ==> (#[trigger] cs@[j]).0@ != name@,
        decreases k,
    {
        let k2 = k - 1;
        if text::str_eq_str(cs[k2].0.as_str(), name) {
            return Some(&cs[k2].1);
        }
        k = k2;
    }
    None
}

/// A parsed directory set keeps one catalog entry per directory that holds a
/// configuration file, in directory order, each built from that directory's
/// last configuration file.
pub proof fn lemma_entry_per_directory(ds: Seq<(Seq<char>, Seq<(Seq<char>, Seq<char>)>)>)
    requires
        spec_build(ds) is Some,
        forall|k: int| 0 <= k < ds.len() ==> last_config_ix((#[trigger] ds[k]).1) is Some,
    ensures
        spec_build(ds).unwrap().len() == ds.len(),
        forall|k: int|
            0 <= k < ds.len() ==> #[trigger] spec_build(ds).unwrap()[k] == (
                (ds[k]).0,
                spec_catalog_entry(ds[k].1[last_config_ix(ds[k].1).unwrap()].1).unwrap(),
            ),
    decreases ds.len(),
{
    if ds.len() > 0 {
        let rest = ds.drop_first();
        assert(forall|k: int| 0 <= k < rest.len() ==> #[trigger] rest[k] == ds[k + 1]);
        lemma_entry_per_directory(rest);
        let cs = spec_build(ds).unwrap();
        let cr = spec_build(rest).unwrap();
        assert(cs == seq![(ds[0].0, spec_catalog_entry(ds[0].1[last_config_ix(ds[0].1).unwrap()].1).unwrap())]
            + cr);
        assert forall|k: int| 0 <= k < ds.len() implies #[trigger] cs[k] == (
            (ds[k]).0,
            spec_catalog_entry(ds[k].1[last_config_ix(ds[k].1).unwrap()].1).unwrap(),
        ) by {
            if k > 0 {
                assert(rest[k - 1] == ds[k]);
                assert(cs[k] == cr[k - 1]);
            }
        }
    }
}

/// A parsed hotkey array keeps one hotkey per element, in element order.
pub proof fn lemma_hotkeys_in_order(objs: Seq<Seq<(Seq<char>, Option<Seq<char>>)>>)
    requires
        spec_hotkeys_of(objs) is Some,
    ensures
        spec_hotkeys_of(objs).unwrap().len() == objs.len(),
        forall|k: int|
            0 <= k < objs.len() ==> (spec_hotkey_of(#[trigger] objs[k]) matches Some(h)
                && spec_hotkeys_of(objs).unwrap()[k] == h),
    decreases objs.len(),
{
    if objs.len() > 0 {
        let rest = objs.drop_first();
        assert(forall|k: int| 0 <= k < rest.len() ==> #[trigger] rest[k] == objs[k + 1]);
        lemma_hotkeys_in_order(rest);
        let hs = spec_hotkeys_of(objs).unwrap();
        let hr = spec_hotkeys_of(rest).unwrap();
        assert(hs == seq![spec_hotkey_of(objs[0]).unwrap()] + hr);
        assert forall|k: int| 0 <= k < objs.len() implies (spec_hotkey_of(
            #[trigger] objs[k],
        ) matches Some(h) && spec_hotkeys_of(objs).unwrap()[k] == h) by {
            if k > 0 {
                assert(rest[k - 1] == objs[k]);
                assert(hs[k] == hr[k - 1]);
            }
        }
    }
}

} // verus!
