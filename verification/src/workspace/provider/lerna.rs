//! The Lerna flavour.

use vstd::prelude::*;
use crate::config::MonorepoProviderType;
use crate::error::AbundantisError;
use crate::paths::{join_path, path_join};
use crate::text::texts;
use crate::workspace::context::{PackageInfo, PackageInfoView};
use crate::workspace::provider::document::{
    all_texts, as_list, as_text, get_list, get_member, get_text, is_object, json_text,
    list_of_texts, member, parse_json, Json,
};
use crate::workspace::provider::pnpm::{
    default_packages, expand_package_patterns, expanded_packages, read_or_empty, text_or_empty,
};
use crate::workspace::provider::traits::{has_marker, marker_exists, MonorepoProvider};
use crate::workspace::tree::{content_at, TreeEntry, TreeEntryView};

verus! {

/// The package patterns that a `lerna.json` names: those under `packages`,
/// and `packages/*` where the key is missing or the text is no such
/// document: no object, a `version` that is no text, or `packages` that is
/// no list of texts.
pub open spec fn lerna_patterns(content: Seq<char>) -> Seq<Seq<char>> {
    match json_text(content) {
        Some(Json::Object(m)) => {
            let doc = Json::Object(m);
            if member(doc, "version"@) is Some && as_text(member(doc, "version"@)->0) is None {
                seq!["packages/*"@]
            } else {
                match member(doc, "packages"@) {
                    Some(list) => match as_list(list) {
                        Some(items) => match all_texts(items) {
                            Some(patterns) => patterns,
                            None => seq!["packages/*"@],
                        },
                        None => seq!["packages/*"@],
                    },
                    None => seq!["packages/*"@],
                }
            }
        },
        _ => seq!["packages/*"@],
    }
}

/// The package patterns that a `lerna.json` names.
pub fn patterns_in_lerna(content: &str) -> (r: Vec<String>)
    ensures
        texts(r@) == lerna_patterns(content@),
{
    let doc = match parse_json(content) {
        Some(doc) => doc,
        None => {
            return default_packages();
        },
    };
    if !is_object(&doc) {
        return default_packages();
    }
    match get_member(&doc, "version") {
        Some(version) => {
            if get_text(&version).is_none() {
                return default_packages();
            }
        },
        None => {},
    }
    match get_member(&doc, "packages") {
        Some(list) => match get_list(&list) {
            Some(items) => match list_of_texts(&items) {
                Some(patterns) => patterns,
                None => default_packages(),
            },
            None => default_packages(),
        },
        None => default_packages(),
    }
}

#[derive(Debug, Clone, Copy, PartialEq, Eq, Structural)]
pub struct LernaProvider {}

impl LernaProvider {
    pub fn new() -> (r: Self) {
        LernaProvider {  }
    }
}

impl Default for LernaProvider {
    fn default() -> (r: Self) {
        LernaProvider::new()
    }
}

impl MonorepoProvider for LernaProvider {
    open spec fn kind(&self) -> MonorepoProviderType {
        MonorepoProviderType::Lerna
    }

    open spec fn marker(&self) -> Seq<char> {
        "lerna.json"@
    }

    open spec fn detects(&self, root: Seq<char>, entries: Seq<TreeEntryView>) -> bool {
        has_marker(root, entries, "lerna.json"@)
    }

    open spec fn packages(&self, root: Seq<char>, entries: Seq<TreeEntryView>) -> Seq<
        PackageInfoView,
    > {
        expanded_packages(
            root,
            lerna_patterns(text_or_empty(content_at(entries, path_join(root, "lerna.json"@)))),
            entries,
        )
    }

    fn provider_type(&self) -> (r: MonorepoProviderType) {
        MonorepoProviderType::Lerna
    }

    fn config_file(&self) -> (r: &'static str) {
        "lerna.json"
    }

    fn detect(&self, root: &str, entries: &Vec<TreeEntry>) -> (r: bool) {
        marker_exists(root, entries, "lerna.json")
    }

    fn discover_packages(&self, root: &str, entries: &Vec<TreeEntry>) -> (r: Result<
        Vec<PackageInfo>,
        AbundantisError,
    >) {
        let path = join_path(root, "lerna.json");
        let content = read_or_empty(entries, path.as_str());
        let patterns = patterns_in_lerna(content.as_str());
        expand_package_patterns(root, &patterns, entries)
    }
}

} // verus!
