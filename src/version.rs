//! Versions of program templates, kept as files named
//! `<role>.<version>.sas` in a folder per workbook kind, both in an official
//! store and in a private one.

use vstd::prelude::*;
use crate::item::Kind;
use crate::render::strings_view;
use crate::text::{
    concat, first_index, lemma_first_index_none, lemma_first_index_split, split_once,
    strip_suffix,
};

verus! {

pub const SDTM_TEMPLATE: &'static str = "sdtm";

pub const ADAM_TEMPLATE: &'static str = "adam";

pub const TFL_TEMPLATE: &'static str = "tfls";

/// The extension of a template file.
pub const TEMPLATE_EXTENTION: &'static str = ".sas";

/// One version of a template: its name, the role it serves (`dev` or `qc`),
/// and whether it belongs to the official store.
#[derive(Clone, Debug)]
pub struct Version {
    pub name: String,
    pub role: String,
    pub offical: bool,
}

pub struct VersionView {
    pub name: Seq<char>,
    pub role: Seq<char>,
    pub offical: bool,
}

impl View for Version {
    type V = VersionView;

    open spec fn view(&self) -> VersionView {
        VersionView { name: self.name@, role: self.role@, offical: self.offical }
    }
}

pub open spec fn versions_view(v: Seq<Version>) -> Seq<VersionView> {
    v.map_values(|x: Version| x@)
}

/// The role and the version name that a template file name stands for: what
/// precedes its first period, and what lies between that period and the
/// extension. A name without the extension, or without a period before it,
/// stands for none.
pub open spec fn version_parts(filename: Seq<char>) -> Option<(Seq<char>, Seq<char>)> {
    match first_index(filename, '.') {
        None => None,
        Some(f) => {
            let after = filename.skip(f + 1);
            if TEMPLATE_EXTENTION@.is_suffix_of(after) {
                Some((filename.take(f), after.take(after.len() - TEMPLATE_EXTENTION@.len())))
            } else {
                None
            }
        },
    }
}

/// The versions that the files `names` of a store hold, in order.
pub open spec fn versions_in(names: Seq<Seq<char>>, offical: bool) -> Seq<VersionView>
    decreases names.len(),
{
    if names.len() == 0 {
        Seq::empty()
    } else {
        let rest = versions_in(names.drop_first(), offical);
        match version_parts(names[0]) {
            Some((role, name)) => seq![VersionView { name, role, offical }] + rest,
            None => rest,
        }
    }
}

/// The folder of a kind's templates inside a store.
pub open spec fn kind_directory(kind: Kind) -> Seq<char> {
    match kind {
        Kind::SDTM => SDTM_TEMPLATE@,
        Kind::ADAM => ADAM_TEMPLATE@,
        Kind::TFL => TFL_TEMPLATE@,
    }
}

/// The file name of a template version.
pub open spec fn version_filename(v: VersionView) -> Seq<char> {
    v.role + "."@ + v.name + TEMPLATE_EXTENTION@
}

pub struct VersionManagerParam {
    pub offical_path: String,
    pub private_path: String,
    pub kind: Kind,
}

pub struct VersionManager {
    offical_path: String,
    private_path: String,
    kind: Kind,
}

pub struct VersionManagerView {
    pub offical_path: Seq<char>,
    pub private_path: Seq<char>,
    pub kind: Kind,
}

impl View for VersionManager {
    type V = VersionManagerView;

    closed spec fn view(&self) -> VersionManagerView {
        VersionManagerView {
            offical_path: self.offical_path@,
            private_path: self.private_path@,
            kind: self.kind,
        }
    }
}

impl VersionManager {
    pub fn new(param: &VersionManagerParam) -> (r: VersionManager)
        ensures
            r@.offical_path == param.offical_path@,
            r@.private_path == param.private_path@,
            r@.kind == param.kind,
    {
        VersionManager {
            offical_path: param.offical_path.clone(),
            private_path: param.private_path.clone(),
            kind: param.kind,
        }
    }

    /// The versions of both stores, given the file names each holds: the
    /// official ones first.
    pub fn list_templates(&self, offical: &Vec<String>, private: &Vec<String>) -> (r: Vec<Version>)
        ensures
            versions_view(r@) == versions_in(strings_view(offical@), true) + versions_in(
                strings_view(private@),
                false,
            ),
    {
        let mut templates = self.get_offical_template(offical);
        let private = self.get_private_template(private);
        let ghost first = versions_view(templates@);
        let mut i: usize = 0;
        while i < private.len()
            invariant
                i <= private@.len(),
                versions_view(templates@) == first + versions_view(private@).take(i as int),
            decreases private@.len() - i,
        {
            let v = &private[i];
            let ghost before = templates@;
            templates.push(Version { name: v.name.clone(), role: v.role.clone(), offical: v.offical });
            assert(versions_view(templates@) =~= versions_view(before).push(private@[i as int]@));
            assert(versions_view(private@).take(i + 1) =~= versions_view(private@).take(
                i as int,
            ).push(private@[i as int]@));
            i = i + 1;
        }
        assert(versions_view(private@).take(private@.len() as int) =~= versions_view(private@));
        templates
    }

    /// The folder of this kind's templates in one store, as the store's path
    /// and the folder's name.
    pub fn base_directory(&self, offical: bool) -> (r: Vec<String>)
        ensures
            strings_view(r@) == seq![
                if offical {
                    self@.offical_path
                } else {
                    self@.private_path
                },
                kind_directory(self@.kind),
            ],
    {
        let kind = match self.kind {
            Kind::SDTM => SDTM_TEMPLATE,
            Kind::ADAM => ADAM_TEMPLATE,
            Kind::TFL => TFL_TEMPLATE,
        };
        let root = if offical {
            self.offical_path.clone()
        } else {
            self.private_path.clone()
        };
        let r = vec![root, kind.to_owned()];
        assert(strings_view(r@) =~= seq![r@[0]@, r@[1]@]);
        r
    }

    /// The file name of a template version.
    pub fn template_filename(&self, version: &Version) -> (r: String)
        ensures
            r@ == version_filename(version@),
    {
        let s = concat(version.role.as_str(), ".");
        let s = concat(s.as_str(), version.name.as_str());
        concat(s.as_str(), TEMPLATE_EXTENTION)
    }

    /// The versions that the files `filenames` of one store hold, in order.
    pub fn get_template_list(&self, filenames: &Vec<String>, offical: bool) -> (r: Vec<Version>)
        ensures
            versions_view(r@) == versions_in(strings_view(filenames@), offical),
    {
        let ghost all = strings_view(filenames@);
        let mut versions: Vec<Version> = Vec::new();
        let mut i: usize = 0;
        assert(all.skip(0) =~= all);
        assert(Seq::<VersionView>::empty() + versions_in(all, offical) =~= versions_in(all, offical));
        while i < filenames.len()
            invariant
                i <= filenames@.len(),
                all == strings_view(filenames@),
                versions_in(all, offical) == versions_view(versions@) + versions_in(
                    all.skip(i as int),
                    offical,
                ),
            decreases filenames@.len() - i,
        {
            assert(all.skip(i as int)[0] == filenames@[i as int]@);
            assert(all.skip(i as int).drop_first() =~= all.skip(i + 1));
            let ghost before = versions_view(versions@);
            match self.filename_to_version(filenames[i].as_str(), offical) {
                Some(v) => {
                    versions.push(v);
                    assert(versions_view(versions@) =~= before + seq![versions_view(versions@).last()]);
                    assert(before + (seq![versions_view(versions@).last()] + versions_in(all.skip(i + 1), offical)) =~= versions_view(versions@) + versions_in(all.skip(i + 1), offical));
                },
                None => {},
            }
            i = i + 1;
        }
        assert(all.skip(i as int) =~= Seq::<Seq<char>>::empty());
        assert(versions_view(versions@) + Seq::<VersionView>::empty() =~= versions_view(versions@));
        versions
    }

    /// The versions of the official store, given the file names it holds.
    pub fn get_offical_template(&self, filenames: &Vec<String>) -> (r: Vec<Version>)
        ensures
            versions_view(r@) == versions_in(strings_view(filenames@), true),
    {
        self.get_template_list(filenames, true)
    }

    /// The versions of the private store, given the file names it holds.
    pub fn get_private_template(&self, filenames: &Vec<String>) -> (r: Vec<Version>)
        ensures
            versions_view(r@) == versions_in(strings_view(filenames@), false),
    {
        self.get_template_list(filenames, false)
    }

    /// The version that a template file name stands for, if any.
    pub fn filename_to_version(&self, filename: &str, offical: bool) -> (r: Option<Version>)
        ensures
            match r {
                Some(v) => version_parts(filename@) == Some((v@.role, v@.name)) && v@.offical
                    == offical,
                None => version_parts(filename@) is None,
            },
    {
        match split_once(filename, '.') {
            None => {
                proof {
                    lemma_first_index_none(filename@, '.');
                }
                None
            },
            Some((role, after)) => {
                proof {
                    lemma_first_index_split(role@, '.', after@);
                    assert(filename@.skip(role@.len() as int + 1) =~= after@);
                    assert(filename@.take(role@.len() as int) =~= role@);
                }
                match strip_suffix(after.as_str(), TEMPLATE_EXTENTION) {
                    None => None,
                    Some(name) => Some(Version { name, role, offical }),
                }
            },
        }
    }
}

} // verus!
