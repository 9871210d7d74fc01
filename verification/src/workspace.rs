//! The workspace a constitution is checked against, as it was observed: the
//! output of `cargo metadata` and the Rust sources of the crates whose modules are
//! governed. Observing (running Cargo, walking directories, reading files) is the
//! caller's part; this module holds what was seen.
use vstd::prelude::*;
use crate::imports::join_dc;
use crate::model::strs;

verus! {

/// One `.rs` file under a crate's `src/` directory.
#[derive(Debug)]
pub struct SourceFile {
    /// The file's path relative to `src/`, one entry per component
    /// (`["kernel", "foo.rs"]`).
    pub components: Vec<String>,
    /// The file's full path, as messages name it.
    pub display: String,
    /// The file's text, or the reason it could not be read.
    pub text: Result<String, String>,
}

/// The `.rs` files of one crate, found under the `src/` directory beside its
/// manifest.
#[derive(Debug)]
pub struct CrateSources {
    /// The crate's manifest path, as `cargo metadata` reports it.
    pub manifest_path: String,
    /// Every `.rs` file under `src/`, recursively, in the order the walk found
    /// them; `None` when the manifest path has no parent directory.
    pub files: Option<Vec<SourceFile>>,
    /// The first directory under `src/` that could not be read, with the reason;
    /// the files beneath it are missing from `files`.
    pub unreadable_dir: Option<(String, String)>,
}

/// A Cargo workspace as observed for one check.
#[derive(Debug)]
pub struct Workspace {
    /// The manifest path the check was pointed at, as messages name it.
    pub manifest: String,
    /// The standard output of `cargo metadata --no-deps --format-version 1`, or the
    /// reason it could not be had.
    pub metadata: Result<String, String>,
    /// The sources of the crates whose modules the constitution governs.
    pub sources: Vec<CrateSources>,
}

/// The model of a source file.
pub struct SourceFileView {
    pub components: Seq<Seq<char>>,
    pub display: Seq<char>,
    pub text: Result<Seq<char>, Seq<char>>,
}

/// The model of a crate's sources.
pub struct CrateSourcesView {
    pub manifest_path: Seq<char>,
    pub files: Option<Seq<SourceFileView>>,
    pub unreadable_dir: Option<(Seq<char>, Seq<char>)>,
}

/// The model of an observed workspace.
pub struct WorkspaceView {
    pub manifest: Seq<char>,
    pub metadata: Result<Seq<char>, Seq<char>>,
    pub sources: Seq<CrateSourcesView>,
}

/// The model of a text or an error text.
pub open spec fn text_view(r: Result<String, String>) -> Result<Seq<char>, Seq<char>> {
    match r {
        Ok(t) => Ok(t@),
        Err(e) => Err(e@),
    }
}

/// The models of a sequence of source files.
pub open spec fn file_views(fs: Seq<SourceFile>) -> Seq<SourceFileView> {
    fs.map_values(|f: SourceFile| f@)
}

impl View for SourceFile {
    type V = SourceFileView;

    open spec fn view(&self) -> SourceFileView {
        SourceFileView {
            components: strs(self.components@),
            display: self.display@,
            text: text_view(self.text),
        }
    }
}

impl View for CrateSources {
    type V = CrateSourcesView;

    open spec fn view(&self) -> CrateSourcesView {
        CrateSourcesView {
            manifest_path: self.manifest_path@,
            files: match self.files {
                Some(fs) => Some(file_views(fs@)),
                None => None,
            },
            unreadable_dir: match self.unreadable_dir {
                Some((d, e)) => Some((d@, e@)),
                None => None,
            },
        }
    }
}

impl View for Workspace {
    type V = WorkspaceView;

    open spec fn view(&self) -> WorkspaceView {
        WorkspaceView {
            manifest: self.manifest@,
            metadata: text_view(self.metadata),
            sources: self.sources@.map_values(|c: CrateSources| c@),
        }
    }
}

/// The file's text, if it has one, is short enough to be scanned within `usize`
/// indices.
pub open spec fn scannable_file(f: SourceFileView) -> bool {
    match f.text {
        Ok(t) => t.len() + 3 <= usize::MAX,
        Err(_) => true,
    }
}

/// Every recorded source text is short enough to be scanned.
pub open spec fn scannable_sources(sources: Seq<CrateSourcesView>) -> bool {
    forall|i: int, j: int|
        0 <= i < sources.len() && sources[i].files is Some && 0 <= j < sources[i].files->0.len()
            ==> scannable_file(#[trigger] sources[i].files->0[j])
}

impl WorkspaceView {
    /// Every source text is short enough to be scanned within `usize` indices.
    pub open spec fn scannable(self) -> bool {
        scannable_sources(self.sources)
    }
}

/// The files recorded for the crate whose manifest is `manifest`: those of the
/// first entry with that manifest path, or none when no entry has it.
pub open spec fn sources_at(sources: Seq<CrateSourcesView>, manifest: Seq<char>) -> Option<
    Seq<SourceFileView>,
>
    decreases sources.len(),
{
    if sources.len() == 0 {
        Some(Seq::empty())
    } else if sources[0].manifest_path == manifest {
        sources[0].files
    } else {
        sources_at(sources.drop_first(), manifest)
    }
}

/// The directory that could not be read under the `src/` of the crate whose
/// manifest is `manifest` (that of the first entry with that manifest path).
pub open spec fn unreadable_at(sources: Seq<CrateSourcesView>, manifest: Seq<char>) -> Option<
    (Seq<char>, Seq<char>),
>
    decreases sources.len(),
{
    if sources.len() == 0 {
        None
    } else if sources[0].manifest_path == manifest {
        sources[0].unreadable_dir
    } else {
        unreadable_at(sources.drop_first(), manifest)
    }
}

/// Whether a file name ends in `.rs`.
pub open spec fn ends_in_rs(name: Seq<char>) -> bool {
    name.len() >= 3 && name[name.len() - 3] == '.' && name[name.len() - 2] == 'r' && name[name.len()
        - 1] == 's'
}

/// A file name without its `.rs` extension.
pub open spec fn stem(name: Seq<char>) -> Seq<char> {
    if ends_in_rs(name) {
        name.take(name.len() - 3)
    } else {
        name
    }
}

/// The segments of the module a file under `src/` defines: `crate`, then each
/// directory, then the file's stem unless it is `mod`, `lib` or `main`.
pub open spec fn module_segments(components: Seq<Seq<char>>) -> Seq<Seq<char>> {
    if components.len() == 0 {
        seq!["crate"@]
    } else {
        let s = stem(components.last());
        let tail = if s == "mod"@ || s == "lib"@ || s == "main"@ {
            Seq::empty()
        } else {
            seq![s]
        };
        seq!["crate"@] + components.drop_last() + tail
    }
}

/// The module path a file under `src/` defines (`kernel/foo.rs` is
/// `crate::kernel::foo`).
pub open spec fn file_module(components: Seq<Seq<char>>) -> Seq<char> {
    join_dc(module_segments(components))
}

} // verus!
