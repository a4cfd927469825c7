//! Discovery of the package manager's local installation: the storage root,
//! its registered library folders, and the install directory of one
//! application.
//!
//! Filesystem access stays with the caller. The caller probes candidate
//! paths, reads the descriptor and manifest files, and hands their text to
//! the functions here, which carry the logic and its contracts.

use vstd::prelude::*;

use crate::errors::AppError;
use crate::text;
use crate::vdf;

verus! {

/// One registered library folder: its directory and the applications it
/// holds, each a numeric id with its display name.
#[derive(Debug)]
pub struct SteamLibrary {
    pub directory: String,
    pub games: Vec<(u32, String)>,
}

/// Discovery state: the storage root once found, the library folders once
/// parsed.
#[derive(Debug)]
pub struct SteamData {
    pub directory: Option<String>,
    pub libraries: Option<Vec<SteamLibrary>>,
}

/// Specification-level reading of a game list.
pub open spec fn games_view(gs: Seq<(u32, String)>) -> Seq<(u32, Seq<char>)> {
    gs.map_values(|g: (u32, String)| (g.0, g.1@))
}

/// Specification-level reading of one library.
pub open spec fn lib_view(l: SteamLibrary) -> (Seq<char>, Seq<(u32, Seq<char>)>) {
    (l.directory@, games_view(l.games@))
}

/// Specification-level reading of a library list.
pub open spec fn libs_view(ls: Seq<SteamLibrary>) -> Seq<(Seq<char>, Seq<(u32, Seq<char>)>)> {
    ls.map_values(|l: SteamLibrary| lib_view(l))
}

/// Last string value bound to `key` in a field list.
pub open spec fn last_text(fs: Seq<(Seq<char>, vdf::SpecFieldVal)>, key: Seq<char>) -> Option<
    Seq<char>,
>
    decreases fs.len(),
{
    if fs.len() == 0 {
        None
    } else if fs.last().0 == key && fs.last().1 is Text {
        Some(fs.last().1->Text_0)
    } else {
        last_text(fs.drop_last(), key)
    }
}

/// Last string-pair sub-object bound to `key` in a field list.
pub open spec fn last_pairs(fs: Seq<(Seq<char>, vdf::SpecFieldVal)>, key: Seq<char>) -> Option<
    Seq<(Seq<char>, Seq<char>)>,
>
    decreases fs.len(),
{
    if fs.len() == 0 {
        None
    } else if fs.last().0 == key && fs.last().1 is Pairs {
        Some(fs.last().1->Pairs_0)
    } else {
        last_pairs(fs.drop_last(), key)
    }
}

/// One application entry `(id, name)`: the key must be a non-empty digit
/// string whose value fits an unsigned 32-bit id.
pub open spec fn games_of_pairs(ps: Seq<(Seq<char>, Seq<char>)>) -> Option<Seq<(u32, Seq<char>)>>
    decreases ps.len(),
{
    if ps.len() == 0 {
        Some(Seq::<(u32, Seq<char>)>::empty())
    } else if ps[0].0.len() > 0 && text::all_digits(ps[0].0) && text::chars_val(ps[0].0)
        <= u32::MAX {
        match games_of_pairs(ps.drop_first()) {
            Some(rest) => Some(seq![(text::chars_val(ps[0].0) as u32, ps[0].1)] + rest),
            None => None,
        }
    } else {
        None
    }
}

/// One library from the fields of one descriptor entry: its `path` string and
/// its `apps` sub-mapping, every app key parsed as an unsigned integer.
pub open spec fn library_of_fields(fs: Seq<(Seq<char>, vdf::SpecFieldVal)>) -> Option<
    (Seq<char>, Seq<(u32, Seq<char>)>),
> {
    match last_text(fs, "path"@) {
        Some(p) => match last_pairs(fs, "apps"@) {
            Some(ps) => match games_of_pairs(ps) {
                Some(gs) => Some((p, gs)),
                None => None,
            },
            None => None,
        },
        None => None,
    }
}

/// Libraries of a descriptor entry list, one per entry, in entry order.
pub open spec fn libs_of_entries(
    es: Seq<(Seq<char>, Seq<(Seq<char>, vdf::SpecFieldVal)>)>,
) -> Option<Seq<(Seq<char>, Seq<(u32, Seq<char>)>)>>
    decreases es.len(),
{
    if es.len() == 0 {
        Some(Seq::<(Seq<char>, Seq<(u32, Seq<char>)>)>::empty())
    } else {
        match library_of_fields(es[0].1) {
            Some(l) => match libs_of_entries(es.drop_first()) {
                Some(rest) => Some(seq![l] + rest),
                None => None,
            },
            None => None,
        }
    }
}

/// The library set described by a descriptor document: one library per
/// top-level entry, or nothing when the document or any entry is malformed.
pub open spec fn spec_libraries(s: Seq<char>) -> Option<
    Seq<(Seq<char>, Seq<(u32, Seq<char>)>)>,
> {
    match vdf::spec_nested_doc(s) {
        Some(es) => libs_of_entries(es),
        None => None,
    }
}

/// A library's game list mentions `id`.
pub open spec fn lib_owns(l: SteamLibrary, id: u32) -> bool {
    exists|i: int| 0 <= i < l.games@.len() && (#[trigger] l.games@[i]).0 == id
}

/// Finds the last string field named `key`, as [`last_text`] does.
fn find_last_text(fields: &Vec<(Vec<char>, vdf::FieldVal)>, key: &str) -> (r: Option<usize>)
    ensures
        (match r {
            Some(ix) => ix < fields@.len() && (fields@[ix as int].1 matches vdf::FieldVal::Text(v)
                && last_text(vdf::fields_view(fields@), key@) == Some(v@)),
            None => last_text(vdf::fields_view(fields@), key@) is None,
        }),
{
    let ghost whole = vdf::fields_view(fields@);
    let mut k: usize = fields.len();
    proof {
        assert(whole.subrange(0, k as int) =~= whole);
    }
    while k > 0
        invariant
            k <= fields@.len(),
            whole == vdf::fields_view(fields@),
            last_text(whole, key@) == last_text(whole.subrange(0, k as int), key@),
        decreases k,
    {
        let k2 = k - 1;
        let f = &fields[k2];
        proof {
            assert(whole.subrange(0, k as int).last() == whole[k2 as int]);
            assert(whole.subrange(0, k as int).drop_last() =~= whole.subrange(0, k2 as int));
        }
        let is_text: bool = match &f.1 {
            vdf::FieldVal::Text(v) => true,
            _ => false,
        };
        if is_text && text::chars_eq_str(&f.0, key) {
            return Some(k2);
        }
        k = k2;
    }
    proof {
        assert(whole.subrange(0, 0) =~= Seq::<(Seq<char>, vdf::SpecFieldVal)>::empty());
    }
    None
}

/// Finds the last string-pair field named `key`, as [`last_pairs`] does.
fn find_last_pairs(fields: &Vec<(Vec<char>, vdf::FieldVal)>, key: &str) -> (r: Option<usize>)
    ensures
        (match r {
            Some(ix) => ix < fields@.len() && (fields@[ix as int].1 matches vdf::FieldVal::Pairs(ps)
                && last_pairs(vdf::fields_view(fields@), key@) == Some(vdf::pairs_view(ps@))),
            None => last_pairs(vdf::fields_view(fields@), key@) is None,
        }),
{
    let ghost whole = vdf::fields_view(fields@);
    let mut k: usize = fields.len();
    proof {
        assert(whole.subrange(0, k as int) =~= whole);
    }
    while k > 0
        invariant
            k <= fields@.len(),
            whole == vdf::fields_view(fields@),
            last_pairs(whole, key@) == last_pairs(whole.subrange(0, k as int), key@),
        decreases k,
    {
        let k2 = k - 1;
        let f = &fields[k2];
        proof {
            assert(whole.subrange(0, k as int).last() == whole[k2 as int]);
            assert(whole.subrange(0, k as int).drop_last() =~= whole.subrange(0, k2 as int));
        }
        let is_pairs: bool = match &f.1 {
            vdf::FieldVal::Pairs(ps) => true,
            _ => false,
        };
        if is_pairs && text::chars_eq_str(&f.0, key) {
            return Some(k2);
        }
        k = k2;
    }
    proof {
        assert(whole.subrange(0, 0) =~= Seq::<(Seq<char>, vdf::SpecFieldVal)>::empty());
    }
    None
}

/// Parses every `(id, name)` pair of an `apps` sub-mapping, as
/// [`games_of_pairs`] does.
fn games_from_pairs(ps: &Vec<(Vec<char>, Vec<char>)>) -> (r: Option<Vec<(u32, String)>>)
    ensures
        (match r {
            Some(gs) => games_of_pairs(vdf::pairs_view(ps@)) == Some(games_view(gs@)),
            None => games_of_pairs(vdf::pairs_view(ps@)) is None,
        }),
{
    let ghost whole = vdf::pairs_view(ps@);
    let mut gs: Vec<(u32, String)> = Vec::new();
    let mut k: usize = 0;
    proof {
        assert(whole.skip(0) =~= whole);
        assert(games_view(gs@) =~= Seq::<(u32, Seq<char>)>::empty());
    }
    while k < ps.len()
        invariant
            k <= ps@.len(),
            whole == vdf::pairs_view(ps@),
            (match games_of_pairs(whole.skip(k as int)) {
                Some(rest) => games_of_pairs(whole) == Some(games_view(gs@) + rest),
                None => games_of_pairs(whole) is None,
            }),
        decreases ps@.len() - k,
    {
        let ghost tail = whole.skip(k as int);
        proof {
            assert(tail[0] == whole[k as int]);
            assert(tail.drop_first() =~= whole.skip(k as int + 1));
        }
        let p = &ps[k];
        let id = match text::parse_u32_chars(&p.0) {
            Some(id) => id,
            None => {
                return None;
            },
        };
        let name = text::chars_to_string(&p.1);
        let ghost gs_snap = gs@;
        gs.push((id, name));
        proof {
            assert(games_view(gs@) =~= games_view(gs_snap) + seq![(id, p.1@)]);
            assert(games_view(gs_snap) + seq![(id, p.1@)] + games_of_pairs(
                whole.skip(k as int + 1),
            ).unwrap() =~= games_view(gs_snap) + (seq![(id, p.1@)] + games_of_pairs(
                whole.skip(k as int + 1),
            ).unwrap()));
        }
        k = k + 1;
    }
    proof {
        assert(whole.skip(ps@.len() as int) =~= Seq::<(Seq<char>, Seq<char>)>::empty());
        assert(games_view(gs@) + Seq::<(u32, Seq<char>)>::empty() =~= games_view(gs@));
    }
    Some(gs)
}

/// Builds one library from one descriptor entry's fields, as
/// [`library_of_fields`] does.
fn library_from_fields(fields: &Vec<(Vec<char>, vdf::FieldVal)>) -> (r: Option<SteamLibrary>)
    ensures
        (match r {
            Some(l) => library_of_fields(vdf::fields_view(fields@)) == Some(lib_view(l)),
            None => library_of_fields(vdf::fields_view(fields@)) is None,
        }),
{
    let path_ix = match find_last_text(fields, "path") {
        Some(ix) => ix,
        None => {
            return None;
        },
    };
    let pairs_ix = match find_last_pairs(fields, "apps") {
        Some(ix) => ix,
        None => {
            return None;
        },
    };
    let directory = match &fields[path_ix].1 {
        vdf::FieldVal::Text(v) => text::chars_to_string(v),
        _ => {
            return None;
        },
    };
    match &fields[pairs_ix].1 {
        vdf::FieldVal::Pairs(ps) => match games_from_pairs(ps) {
            Some(games) => Some(SteamLibrary { directory, games }),
            None => None,
        },
        _ => None,
    }
}

impl SteamData {
    /// Fresh discovery state holding whatever the caller already knows.
    pub fn new(directory: Option<String>, libraries: Option<Vec<SteamLibrary>>) -> (r: SteamData)
        ensures
            r.directory == directory,
            r.libraries == libraries,
    {
        SteamData { directory, libraries }
    }

    /// The platform's candidate storage roots under the given home directory,
    /// in fixed priority order: the canonical install path first, then the
    /// user-local data path, then the sandboxed package variant.
    pub fn candidate_paths(home: &str) -> (r: Vec<String>)
        ensures
            r@.len() == 3,
            r@[0]@ == home@ + "/.steam/steam"@,
            r@[1]@ == home@ + "/.local/share/Steam"@,
            r@[2]@ == home@ + "/.var/app/com.valvesoftware.Steam/data/Steam"@,
    {
        let mut r: Vec<String> = Vec::new();
        let mut a = String::from_str(home);
        a.append("/.steam/steam");
        r.push(a);
        let mut b = String::from_str(home);
        b.append("/.local/share/Steam");
        r.push(b);
        let mut c = String::from_str(home);
        c.append("/.var/app/com.valvesoftware.Steam/data/Steam");
        r.push(c);
        r
    }

    /// The first candidate path that exists wins; with none, the storage root
    /// is not found. `exists[i]` reports whether `candidates[i]` names an
    /// existing directory.
    pub fn find_directory(candidates: &Vec<String>, exists: &Vec<bool>) -> (r: Result<
        String,
        AppError,
    >)
        requires
            candidates@.len() == exists@.len(),
        ensures
            (match r {
                Ok(d) => (exists|k: int|
                    0 <= k < exists@.len() && exists@[k] && d == candidates@[k] && (forall|j: int|
                        0 <= j < k ==> !exists@[j])),
                Err(e) => e == AppError::NotFound && (forall|j: int|
                    0 <= j < exists@.len() ==> !exists@[j]),
            }),
    {
        let mut k: usize = 0;
        while k < candidates.len()
            invariant
                candidates@.len() == exists@.len(),
                k <= exists@.len(),
                forall|j: int| 0 <= j < k ==> !exists@[j],
            decreases candidates@.len() - k,
        {
            if exists[k] {
                return Ok(candidates[k].clone());
            }
            k = k + 1;
        }
        Err(AppError::NotFound)
    }

    /// Records the first existing candidate as the storage root; leaves the
    /// state unchanged when none exists.
    pub fn update_directory(&mut self, candidates: &Vec<String>, exists: &Vec<bool>) -> (r: Result<
        (),
        AppError,
    >)
        requires
            candidates@.len() == exists@.len(),
        ensures
            final(self).libraries == old(self).libraries,
            (match r {
                Ok(()) => (exists|k: int|
                    0 <= k < exists@.len() && exists@[k] && (final(self).directory matches Some(d)
                        && d == candidates@[k]) && (forall|j: int| 0 <= j < k ==> !exists@[j])),
                Err(e) => e == AppError::NotFound && final(self).directory == old(
                    self,
                ).directory && (forall|j: int| 0 <= j < exists@.len() ==> !exists@[j]),
            }),
    {
        match Self::find_directory(candidates, exists) {
            Ok(d) => {
                self.directory = Some(d);
                Ok(())
            },
            Err(e) => Err(e),
        }
    }

    /// Path of the library descriptor file under the storage root, once the
    /// root is known.
    pub fn descriptor_path(&self) -> (r: Option<String>)
        ensures
            (match r {
                Some(p) => (self.directory matches Some(d) && p@ == d@
                    + "/steamapps/libraryfolders.vdf"@),
                None => self.directory is None,
            }),
    {
        match &self.directory {
            Some(d) => {
                let mut p = d.clone();
                p.append("/steamapps/libraryfolders.vdf");
                Some(p)
            },
            None => None,
        }
    }

    /// Parses the library descriptor text into the library set: exactly one
    /// library per top-level entry, its `path` and its `apps` mapping with
    /// every app key read as an unsigned integer; any malformed entry fails
    /// the whole parse.
    pub fn find_libraries(descriptor: &Vec<char>) -> (r: Result<Vec<SteamLibrary>, AppError>)
        requires
            descriptor@.len() < usize::MAX,
        ensures
            r is Ok <==> spec_libraries(descriptor@) is Some,
            (match r {
                Ok(libs) => spec_libraries(descriptor@) == Some(libs_view(libs@)),
                Err(e) => e == AppError::ParseError,
            }),
    {
        let es = match vdf::parse_nested_doc(descriptor) {
            Some(es) => es,
            None => {
                return Err(AppError::ParseError);
            },
        };
        let ghost whole = vdf::entries_view(es@);
        let mut libs: Vec<SteamLibrary> = Vec::new();
        let mut k: usize = 0;
        proof {
            assert(whole.skip(0) =~= whole);
            assert(libs_view(libs@) =~= Seq::<(Seq<char>, Seq<(u32, Seq<char>)>)>::empty());
        }
        while k < es.len()
            invariant
                k <= es@.len(),
                whole == vdf::entries_view(es@),
                spec_nested_doc_is(descriptor@, whole),
                (match libs_of_entries(whole.skip(k as int)) {
                    Some(rest) => libs_of_entries(whole) == Some(libs_view(libs@) + rest),
                    None => libs_of_entries(whole) is None,
                }),
            decreases es@.len() - k,
        {
            let ghost tail = whole.skip(k as int);
            proof {
                assert(tail[0] == whole[k as int]);
                assert(tail.drop_first() =~= whole.skip(k as int + 1));
            }
            let l = match library_from_fields(&es[k].1) {
                Some(l) => l,
                None => {
                    return Err(AppError::ParseError);
                },
            };
            let ghost libs_snap = libs@;
            let ghost lv = lib_view(l);
            libs.push(l);
            proof {
                assert(libs_view(libs@) =~= libs_view(libs_snap) + seq![lv]);
                assert(libs_view(libs_snap) + seq![lv] + libs_of_entries(
                    whole.skip(k as int + 1),
                ).unwrap() =~= libs_view(libs_snap) + (seq![lv] + libs_of_entries(
                    whole.skip(k as int + 1),
                ).unwrap()));
            }
            k = k + 1;
        }
        proof {
            assert(whole.skip(es@.len() as int) =~= Seq::<
                (Seq<char>, Seq<(Seq<char>, vdf::SpecFieldVal)>),
            >::empty());
            assert(libs_view(libs@) + Seq::<(Seq<char>, Seq<(u32, Seq<char>)>)>::empty()
                =~= libs_view(libs@));
        }
        Ok(libs)
    }

    /// Parses the descriptor text and records the library set. The storage
    /// root must have been found first, as the caller read the descriptor
    /// from under it; otherwise nothing changes and the root is reported
    /// missing.
    pub fn update_libraries(&mut self, descriptor: &Vec<char>) -> (r: Result<(), AppError>)
        requires
            descriptor@.len() < usize::MAX,
        ensures
            final(self).directory == old(self).directory,
            (match r {
                Ok(()) => old(self).directory is Some && spec_libraries(descriptor@) is Some
                    && (final(self).libraries matches Some(libs) && spec_libraries(descriptor@)
                    == Some(libs_view(libs@))),
                Err(e) => final(self).libraries == old(self).libraries && (if old(
                    self,
                ).directory is None {
                    e == AppError::NotFound
                } else {
                    e == AppError::ParseError && spec_libraries(descriptor@) is None
                }),
            }),
    {
        if self.directory.is_none() {
            return Err(AppError::NotFound);
        }
        match Self::find_libraries(descriptor) {
            Ok(libs) => {
                self.libraries = Some(libs);
                Ok(())
            },
            Err(e) => Err(e),
        }
    }
}

/// Install manifest content: the application's display name and the relative
/// name of its install directory.
#[derive(Debug)]
pub struct SteamAppManifest {
    pub name: String,
    pub installdir: String,
}

/// The `(name, installdir)` pair described by an install manifest document,
/// or nothing when the document is malformed or either field is missing.
pub open spec fn spec_manifest(s: Seq<char>) -> Option<(Seq<char>, Seq<char>)> {
    match vdf::spec_flat_doc(s) {
        Some(fs) => match last_text(fs, "name"@) {
            Some(n) => match last_text(fs, "installdir"@) {
                Some(d) => Some((n, d)),
                None => None,
            },
            None => None,
        },
        None => None,
    }
}

/// Parses an install manifest document, as [`spec_manifest`] describes.
pub fn parse_manifest(s: &Vec<char>) -> (r: Result<SteamAppManifest, AppError>)
    requires
        s@.len() < usize::MAX,
    ensures
        r is Ok <==> spec_manifest(s@) is Some,
        (match r {
            Ok(m) => spec_manifest(s@) == Some((m.name@, m.installdir@)),
            Err(e) => e == AppError::ParseError,
        }),
{
    let fs = match vdf::parse_flat_doc(s) {
        Some(fs) => fs,
        None => {
            return Err(AppError::ParseError);
        },
    };
    let name_ix = match find_last_text(&fs, "name") {
        Some(ix) => ix,
        None => {
            return Err(AppError::ParseError);
        },
    };
    let dir_ix = match find_last_text(&fs, "installdir") {
        Some(ix) => ix,
        None => {
            return Err(AppError::ParseError);
        },
    };
    let name = match &fs[name_ix].1 {
        vdf::FieldVal::Text(v) => text::chars_to_string(v),
        _ => {
            return Err(AppError::ParseError);
        },
    };
    let installdir = match &fs[dir_ix].1 {
        vdf::FieldVal::Text(v) => text::chars_to_string(v),
        _ => {
            return Err(AppError::ParseError);
        },
    };
    Ok(SteamAppManifest { name, installdir })
}

/// First library whose game list mentions `game_id`.
fn first_owner(libs: &Vec<SteamLibrary>, game_id: u32) -> (r: Option<usize>)
    ensures
        (match r {
            Some(k) => k < libs@.len() && lib_owns(libs@[k as int], game_id) && (forall|j: int|
                0 <= j < k ==> !lib_owns(libs@[j], game_id)),
            None => (forall|j: int| 0 <= j < libs@.len() ==> !lib_owns(libs@[j], game_id)),
        }),
{
    let mut k: usize = 0;
    while k < libs.len()
        invariant
            k <= libs@.len(),
            forall|j: int| 0 <= j < k ==> !lib_owns(libs@[j], game_id),
        decreases libs@.len() - k,
    {
        let l = &libs[k];
        let mut g: usize = 0;
        while g < l.games.len()
            invariant
                k < libs@.len(),
                *l == libs@[k as int],
                forall|j: int| 0 <= j < k ==> !lib_owns(libs@[j], game_id),
                g <= l.games@.len(),
                forall|j: int| 0 <= j < g ==> (#[trigger] l.games@[j]).0 != game_id,
            decreases l.games@.len() - g,
        {
            if l.games[g].0 == game_id {
                proof {
                    assert((#[trigger] libs@[k as int].games@[g as int]).0 == game_id);
                    assert(lib_owns(libs@[k as int], game_id));
                }
                return Some(k);
            }
            g = g + 1;
        }
        proof {
            assert(!lib_owns(libs@[k as int], game_id));
        }
        k = k + 1;
    }
    None
}

/// Path of the install manifest file for `game_id` under a library
/// directory.
pub fn manifest_path(library_dir: &str, game_id: u32) -> (r: String)
    ensures
        r@ == library_dir@ + "/steamapps/appmanifest_"@ + text::dec_chars(game_id as nat)
            + ".acf"@,
{
    let mut p = String::from_str(library_dir);
    p.append("/steamapps/appmanifest_");
    let digits = text::u32_to_chars(game_id);
    let ds = text::chars_to_string(&digits);
    p.append(ds.as_str());
    p.append(".acf");
    p
}

impl SteamData {
    /// Index of the first known library whose game list mentions `game_id`,
    /// once the libraries are known.
    pub fn find_game_library(&self, game_id: u32) -> (r: Option<usize>)
        ensures
            (match r {
                Some(k) => (self.libraries matches Some(libs) && k < libs@.len() && lib_owns(
                    libs@[k as int],
                    game_id,
                ) && (forall|j: int| 0 <= j < k ==> !lib_owns(libs@[j], game_id))),
                None => (match self.libraries {
                    Some(libs) => forall|j: int|
                        0 <= j < libs@.len() ==> !lib_owns(libs@[j], game_id),
                    None => true,
                }),
            }),
    {
        match &self.libraries {
            Some(libs) => first_owner(libs, game_id),
            None => None,
        }
    }

    /// Install directory of `game_id`: the first owning library's path joined
    /// with `steamapps/common` and the manifest's install directory name.
    /// `manifest` is the content of that library's manifest file for the id.
    /// With no owning library the id is simply not installed; a missing or
    /// malformed manifest for an owned id is a hard parse failure.
    pub fn get_game_directory(&self, game_id: u32, manifest: &Vec<char>) -> (r: Result<
        Option<String>,
        AppError,
    >)
        requires
            manifest@.len() < usize::MAX,
        ensures
            (match r {
                Ok(Some(p)) => (self.libraries matches Some(libs) && (exists|k: int|
                    0 <= k < libs@.len() && #[trigger] lib_owns(libs@[k], game_id) && (forall|
                        j: int,
                    |
                        0 <= j < k ==> !lib_owns(libs@[j], game_id)) && (spec_manifest(
                        manifest@,
                    ) matches Some(m) && p@ == libs@[k].directory@ + "/steamapps/common/"@
                        + m.1))),
                Ok(None) => (match self.libraries {
                    Some(libs) => forall|j: int|
                        0 <= j < libs@.len() ==> !lib_owns(libs@[j], game_id),
                    None => true,
                }),
                Err(e) => e == AppError::ParseError && spec_manifest(manifest@) is None && (
                self.libraries matches Some(libs) && exists|k: int|
                    0 <= k < libs@.len() && #[trigger] lib_owns(libs@[k], game_id)),
            }),
    {
        let libs = match &self.libraries {
            Some(libs) => libs,
            None => {
                return Ok(None);
            },
        };
        let k = match first_owner(libs, game_id) {
            Some(k) => k,
            None => {
                return Ok(None);
            },
        };
        let m = match parse_manifest(manifest) {
            Ok(m) => m,
            Err(e) => {
                return Err(e);
            },
        };
        let mut p = libs[k].directory.clone();
        p.append("/steamapps/common/");
        p.append(m.installdir.as_str());
        Ok(Some(p))
    }
}

/// Every application key of an `apps` sub-mapping parses as an unsigned
/// 32-bit integer, or the mapping as a whole yields nothing; and a parsed
/// mapping keeps one `(id, name)` entry per pair, in order.
pub proof fn lemma_games_of_pairs(ps: Seq<(Seq<char>, Seq<char>)>)
    ensures
        games_of_pairs(ps) matches Some(gs) ==> gs.len() == ps.len() && (forall|k: int|
            0 <= k < ps.len() ==> ((#[trigger] ps[k]).0.len() > 0 && text::all_digits(ps[k].0)
                && text::chars_val(ps[k].0) <= u32::MAX && gs[k] == (
                text::chars_val(ps[k].0) as u32,
                ps[k].1,
            ))),
        games_of_pairs(ps) is None ==> (exists|k: int|
            0 <= k < ps.len() && !((#[trigger] ps[k]).0.len() > 0 && text::all_digits(ps[k].0)
                && text::chars_val(ps[k].0) <= u32::MAX)),
    decreases ps.len(),
{
    if ps.len() > 0 {
        let rest = ps.drop_first();
        lemma_games_of_pairs(rest);
        assert(forall|k: int| 0 <= k < rest.len() ==> #[trigger] rest[k] == ps[k + 1]);
        let head_ok = ps[0].0.len() > 0 && text::all_digits(ps[0].0) && text::chars_val(ps[0].0)
            <= u32::MAX;
        if !head_ok {
            assert(games_of_pairs(ps) is None);
            assert(0 <= 0 < ps.len() && !(ps[0].0.len() > 0 && text::all_digits(ps[0].0)
                && text::chars_val(ps[0].0) <= u32::MAX));
        } else if games_of_pairs(rest) is None {
            assert(games_of_pairs(ps) is None);
            let k0 = choose|k: int|
                0 <= k < rest.len() && !((#[trigger] rest[k]).0.len() > 0 && text::all_digits(
                    rest[k].0,
                ) && text::chars_val(rest[k].0) <= u32::MAX);
            assert(rest[k0] == ps[k0 + 1]);
            assert(0 <= k0 + 1 < ps.len() && !(ps[k0 + 1].0.len() > 0 && text::all_digits(
                ps[k0 + 1].0,
            ) && text::chars_val(ps[k0 + 1].0) <= u32::MAX));
        } else {
            let gs = games_of_pairs(ps).unwrap();
            let gr = games_of_pairs(rest).unwrap();
            assert(gs == seq![(text::chars_val(ps[0].0) as u32, ps[0].1)] + gr);
            assert forall|k: int| 0 <= k < ps.len() implies ((#[trigger] ps[k]).0.len() > 0
                && text::all_digits(ps[k].0) && text::chars_val(ps[k].0) <= u32::MAX && gs[k] == (
                text::chars_val(ps[k].0) as u32,
                ps[k].1,
            )) by {
                if k > 0 {
                    assert(rest[k - 1] == ps[k]);
                    assert(gs[k] == gr[k - 1]);
                }
            }
        }
    }
}

/// Exactly one library per top-level descriptor entry: a parsed descriptor
/// has as many libraries as entries, each built from its entry's fields, and
/// one malformed entry fails the whole set.
pub proof fn lemma_libs_of_entries(es: Seq<(Seq<char>, Seq<(Seq<char>, vdf::SpecFieldVal)>)>)
    ensures
        libs_of_entries(es) matches Some(ls) ==> ls.len() == es.len() && (forall|k: int|
            0 <= k < es.len() ==> (library_of_fields((#[trigger] es[k]).1) matches Some(l) && ls[k]
                == l)),
        libs_of_entries(es) is None ==> (exists|k: int|
            0 <= k < es.len() && library_of_fields((#[trigger] es[k]).1) is None),
    decreases es.len(),
{
    if es.len() > 0 {
        let rest = es.drop_first();
        lemma_libs_of_entries(rest);
        assert(forall|k: int| 0 <= k < rest.len() ==> #[trigger] rest[k] == es[k + 1]);
        if library_of_fields(es[0].1) is None {
            assert(libs_of_entries(es) is None);
            assert(0 <= 0 < es.len() && library_of_fields(es[0].1) is None);
        } else if libs_of_entries(rest) is None {
            assert(libs_of_entries(es) is None);
            let k0 = choose|k: int|
                0 <= k < rest.len() && library_of_fields((#[trigger] rest[k]).1) is None;
            assert(rest[k0] == es[k0 + 1]);
            assert(0 <= k0 + 1 < es.len() && library_of_fields(es[k0 + 1].1) is None);
        } else {
            let ls = libs_of_entries(es).unwrap();
            let lr = libs_of_entries(rest).unwrap();
            assert(ls == seq![library_of_fields(es[0].1).unwrap()] + lr);
            assert forall|k: int| 0 <= k < es.len() implies (library_of_fields(
                (#[trigger] es[k]).1,
            ) matches Some(l) && ls[k] == l) by {
                if k > 0 {
                    assert(rest[k - 1] == es[k]);
                    assert(ls[k] == lr[k - 1]);
                }
            }
        }
    }
}

/// A well-formed descriptor yields exactly one library per top-level key,
/// each built from its own entry's fields.
pub proof fn lemma_library_per_descriptor_key(s: Seq<char>)
    requires
        spec_libraries(s) is Some,
    ensures
        vdf::spec_nested_doc(s) is Some,
        spec_libraries(s).unwrap().len() == vdf::spec_nested_doc(s).unwrap().len(),
        forall|k: int|
            0 <= k < vdf::spec_nested_doc(s).unwrap().len() ==> #[trigger] spec_libraries(
                s,
            ).unwrap()[k] == library_of_fields(vdf::spec_nested_doc(s).unwrap()[k].1).unwrap(),
{
    let es = vdf::spec_nested_doc(s).unwrap();
    lemma_libs_of_entries(es);
}

/// Restatement of [`vdf::spec_nested_doc`] success for use as a loop
/// invariant.
pub open spec fn spec_nested_doc_is(
    s: Seq<char>,
    es: Seq<(Seq<char>, Seq<(Seq<char>, vdf::SpecFieldVal)>)>,
) -> bool {
    vdf::spec_nested_doc(s) == Some(es)
}

} // verus!
