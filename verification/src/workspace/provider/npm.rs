//! The npm and yarn flavour.

use vstd::prelude::*;
use crate::config::MonorepoProviderType;
use crate::error::AbundantisError;
use crate::paths::{join_path, path_join};
use crate::text::texts;
use crate::workspace::context::{package_views, PackageInfo, PackageInfoView};
use crate::workspace::provider::document::{
    all_texts, as_list, get_list, get_member, is_object, json_text, list_of_texts, member,
    parse_json, Json,
};
use crate::workspace::provider::pnpm::{
    expand_package_patterns, expanded_packages, read_or_empty, text_or_empty,
};
use crate::workspace::provider::traits::MonorepoProvider;
use crate::workspace::tree::{content_at, find_entry, TreeEntry, TreeEntryView};

verus! {

/// The package patterns that a tree names as workspaces: a list of texts,
/// or the list of texts under `packages` of an object.
pub open spec fn workspaces_of(tree: Json) -> Option<Seq<Seq<char>>> {
    match tree {
        Json::List(items) => all_texts(items),
        Json::Object(m) => match member(tree, "packages"@) {
            Some(list) => match as_list(list) {
                Some(items) => all_texts(items),
                None => None,
            },
            None => None,
        },
        _ => None,
    }
}

/// The package patterns that a `package.json` names under `workspaces`;
/// none where the text is no such document or names none.
pub open spec fn npm_workspaces(content: Seq<char>) -> Option<Seq<Seq<char>>> {
    match json_text(content) {
        Some(Json::Object(m)) => match member(Json::Object(m), "workspaces"@) {
            Some(tree) => workspaces_of(tree),
            None => None,
        },
        _ => None,
    }
}

/// The package patterns that a `package.json` names under `workspaces`.
pub fn workspaces_in(content: &str) -> (r: Option<Vec<String>>)
    ensures
        match r {
            Some(patterns) => npm_workspaces(content@) == Some(texts(patterns@)),
            None => npm_workspaces(content@) is None,
        },
{
    let doc = match parse_json(content) {
        Some(doc) => doc,
        None => {
            return None;
        },
    };
    if !is_object(&doc) {
        return None;
    }
    let tree = match get_member(&doc, "workspaces") {
        Some(tree) => tree,
        None => {
            return None;
        },
    };
    match get_list(&tree) {
        Some(items) => list_of_texts(&items),
        None => {
            if !is_object(&tree) {
                return None;
            }
            match get_member(&tree, "packages") {
                Some(list) => match get_list(&list) {
                    Some(items) => list_of_texts(&items),
                    None => None,
                },
                None => None,
            }
        },
    }
}

#[derive(Debug, Clone, Copy, PartialEq, Eq, Structural)]
pub struct NpmProvider {}

impl NpmProvider {
    pub fn new() -> (r: Self) {
        NpmProvider {  }
    }
}

impl Default for NpmProvider {
    fn default() -> (r: Self) {
        NpmProvider::new()
    }
}

impl MonorepoProvider for NpmProvider {
    open spec fn kind(&self) -> MonorepoProviderType {
        MonorepoProviderType::Npm
    }

    open spec fn marker(&self) -> Seq<char> {
        "package.json"@
    }

    open spec fn detects(&self, root: Seq<char>, entries: Seq<TreeEntryView>) -> bool {
        match content_at(entries, path_join(root, "package.json"@)) {
            Some(text) => npm_workspaces(text) is Some,
            None => false,
        }
    }

    open spec fn packages(&self, root: Seq<char>, entries: Seq<TreeEntryView>) -> Seq<
        PackageInfoView,
    > {
        match npm_workspaces(text_or_empty(content_at(entries, path_join(root, "package.json"@)))) {
            Some(patterns) => expanded_packages(root, patterns, entries),
            None => Seq::empty(),
        }
    }

    fn provider_type(&self) -> (r: MonorepoProviderType) {
        MonorepoProviderType::Npm
    }

    fn config_file(&self) -> (r: &'static str) {
        "package.json"
    }

    fn detect(&self, root: &str, entries: &Vec<TreeEntry>) -> (r: bool) {
        let path = join_path(root, "package.json");
        match find_entry(entries, path.as_str()) {
            Some(at) => match &entries[at].content {
                Some(text) => workspaces_in(text.as_str()).is_some(),
                None => false,
            },
            None => false,
        }
    }

    fn discover_packages(&self, root: &str, entries: &Vec<TreeEntry>) -> (r: Result<
        Vec<PackageInfo>,
        AbundantisError,
    >) {
        let path = join_path(root, "package.json");
        let content = read_or_empty(entries, path.as_str());
        match workspaces_in(content.as_str()) {
            Some(patterns) => expand_package_patterns(root, &patterns, entries),
            None => {
                let none: Vec<PackageInfo> = Vec::new();
                assert(package_views(none@) =~= Seq::<PackageInfoView>::empty());
                Ok(none)
            },
        }
    }
}

} // verus!
