//! The scope of one resolution and the packages of a workspace.

use vstd::prelude::*;
use crate::text::{clone_opt_string, clone_strings, opt_text, texts};

verus! {

/// The scope in which a variable is resolved for one file.
#[derive(Debug, Hash)]
pub struct WorkspaceContext {
    pub workspace_root: String,
    pub package_root: String,
    pub package_name: Option<String>,
    pub env_files: Vec<String>,
}

pub struct WorkspaceContextView {
    pub workspace_root: Seq<char>,
    pub package_root: Seq<char>,
    pub package_name: Option<Seq<char>>,
    pub env_files: Seq<Seq<char>>,
}

impl View for WorkspaceContext {
    type V = WorkspaceContextView;

    open spec fn view(&self) -> WorkspaceContextView {
        WorkspaceContextView {
            workspace_root: self.workspace_root@,
            package_root: self.package_root@,
            package_name: opt_text(self.package_name),
            env_files: texts(self.env_files@),
        }
    }
}

impl Clone for WorkspaceContext {
    fn clone(&self) -> (r: Self)
        ensures
            r@ == self@,
    {
        WorkspaceContext {
            workspace_root: self.workspace_root.clone(),
            package_root: self.package_root.clone(),
            package_name: clone_opt_string(&self.package_name),
            env_files: clone_strings(&self.env_files),
        }
    }
}

/// One package of the workspace.
#[derive(Debug, Hash)]
pub struct PackageInfo {
    pub root: String,
    pub name: Option<String>,
    pub relative_path: String,
}

pub struct PackageInfoView {
    pub root: Seq<char>,
    pub name: Option<Seq<char>>,
    pub relative_path: Seq<char>,
}

impl View for PackageInfo {
    type V = PackageInfoView;

    open spec fn view(&self) -> PackageInfoView {
        PackageInfoView {
            root: self.root@,
            name: opt_text(self.name),
            relative_path: self.relative_path@,
        }
    }
}

impl Clone for PackageInfo {
    fn clone(&self) -> (r: Self)
        ensures
            r@ == self@,
    {
        PackageInfo {
            root: self.root.clone(),
            name: clone_opt_string(&self.name),
            relative_path: self.relative_path.clone(),
        }
    }
}

/// The views of a list of packages, in order.
pub open spec fn package_views(v: Seq<PackageInfo>) -> Seq<PackageInfoView> {
    Seq::new(v.len(), |i: int| v[i]@)
}

} // verus!
