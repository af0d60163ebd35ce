//! Where model files are kept.
//!
//! The cache holds a directory for each repository, with the snapshots under
//! `snapshots/<commit>` and, under `refs/<revision>`, the commit that a symbolic
//! revision such as `main` stands for.

use vstd::prelude::*;

use crate::models::ModelSpec;
use crate::text;

verus! {

/// The cache of model files.
pub struct ModelHub {
    cache_dir: String,
}

impl View for ModelHub {
    type V = Seq<char>;

    closed spec fn view(&self) -> Seq<char> {
        self.cache_dir@
    }
}

impl Clone for ModelHub {
    fn clone(&self) -> (r: Self)
        ensures
            r == *self,
    {
        ModelHub { cache_dir: self.cache_dir.clone() }
    }
}

/// The name of the directory of a repository.
pub open spec fn repo_dir(repo_id: Seq<char>) -> Seq<char> {
    "models--"@ + text::replaced(repo_id, '/', "--"@)
}

/// The path, below the cache directory, of the file that says what commit the
/// revision of a model stands for.
pub open spec fn reference_path(spec: ModelSpec) -> Seq<Seq<char>> {
    seq![repo_dir(spec.repo_id@), "refs"@, spec.revision@]
}

/// The commit of a model: what the reference file says, where there is one. A
/// revision without a reference file is a commit itself.
pub open spec fn commit_of(spec: ModelSpec, reference: Option<Seq<char>>) -> Seq<char> {
    match reference {
        Some(content) => text::trimmed(content),
        None => spec.revision@,
    }
}

/// The path of a model file below the cache directory.
pub open spec fn snapshot_path(spec: ModelSpec, reference: Option<Seq<char>>) -> Seq<Seq<char>> {
    seq![repo_dir(spec.repo_id@), "snapshots"@, commit_of(spec, reference), spec.filename@]
}

fn repo_dir_name(repo_id: &str) -> (r: String)
    ensures
        r@ == repo_dir(repo_id@),
{
    let name = text::replace(repo_id, '/', "--");
    text::concat("models--", name.as_str())
}

impl ModelHub {
    pub fn new(cache_dir: String) -> (r: Self)
        ensures
            r@ == cache_dir@,
    {
        ModelHub { cache_dir }
    }

    pub fn cache_dir(&self) -> (r: &str)
        ensures
            r@ == self@,
    {
        self.cache_dir.as_str()
    }

    /// The path, below the cache directory, of the file that says what commit
    /// the revision of `spec` stands for.
    pub fn reference_path(&self, spec: &ModelSpec) -> (r: Vec<String>)
        ensures
            text::views(r@) == reference_path(*spec),
    {
        let mut parts: Vec<String> = Vec::new();
        parts.push(repo_dir_name(spec.repo_id.as_str()));
        parts.push("refs".to_string());
        parts.push(spec.revision.clone());
        assert(text::views(parts@) =~= reference_path(*spec));
        parts
    }

    /// The path of the model file below the cache directory, given what the
    /// reference file holds. The model is cached if there is a file.
    pub fn snapshot_path(&self, spec: &ModelSpec, reference: Option<&str>) -> (r: Vec<String>)
        ensures
            text::views(r@) == snapshot_path(
                *spec,
                match reference {
                    Some(content) => Some(content@),
                    None => None,
                },
            ),
    {
        let commit = match reference {
            Some(content) => text::trim(content),
            None => spec.revision.clone(),
        };
        let mut parts: Vec<String> = Vec::new();
        parts.push(repo_dir_name(spec.repo_id.as_str()));
        parts.push("snapshots".to_string());
        parts.push(commit);
        parts.push(spec.filename.clone());
        assert(text::views(parts@) =~= snapshot_path(
            *spec,
            match reference {
                Some(content) => Some(content@),
                None => None,
            },
        ));
        parts
    }
}

/// A reference file for a revision only redirects it: a model whose reference
/// file holds a commit has the same path as the model at that commit.
pub proof fn law_reference_redirects(spec: ModelSpec, at: ModelSpec, content: Seq<char>)
    requires
        at.repo_id@ == spec.repo_id@,
        at.filename@ == spec.filename@,
        at.revision@ == text::trimmed(content),
    ensures
        snapshot_path(spec, Some(content)) == snapshot_path(at, None),
{
}

/// A model lies in the directory of its repository, whose name has two hyphens in
/// place of each slash, under the commit that the reference file names, without
/// the whitespace around it, or else under the revision itself, with its own file
/// name. The reference file lies beside, under the name of the revision.
pub proof fn law_places_in_the_cache(spec: ModelSpec, content: Seq<char>)
    ensures
        ({
            let repo = "models--"@ + text::replaced(spec.repo_id@, '/', "--"@);
            &&& reference_path(spec) == seq![repo, "refs"@, spec.revision@]
            &&& snapshot_path(spec, None) == seq![
                repo,
                "snapshots"@,
                spec.revision@,
                spec.filename@,
            ]
            &&& snapshot_path(spec, Some(content)) == seq![
                repo,
                "snapshots"@,
                text::trimmed(content),
                spec.filename@,
            ]
        }),
{
}

} // verus!
