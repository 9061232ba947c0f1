//! The logic behind the JavaScript bindings: the events pushed to JavaScript
//! listeners, the watcher setups, and the directory watched for a rebuild.

use vstd::prelude::*;
use crate::bundler::Output;
use crate::events::FsWatcherOptions;
use crate::fspath::{parent_of, path_parent};
use crate::ignored::FsWatcherIgnored;

verus! {

/// Bundler options as JavaScript passes them.
#[derive(Debug, Clone)]
pub struct BindingBundlerOptions {
    pub input: String,
}

/// A build result as JavaScript receives it.
#[derive(Debug)]
pub struct BindingOutput {
    pub code: String,
    pub modules: Vec<String>,
}

impl BindingOutput {
    /// The bundle and its module list, unchanged.
    pub fn from_output(output: Output) -> (r: Self)
        ensures
            r.code == output.code,
            r.modules == output.modules,
    {
        BindingOutput { code: output.code, modules: output.modules }
    }
}

/// An event pushed to a JavaScript watch listener: `change` (with a path),
/// `bundle_end` (with the module list and the code) or `error` (with a message).
#[derive(Debug)]
pub struct BindingWatchEvent {
    pub kind: String,
    pub path: Option<String>,
    pub modules: Option<Vec<String>>,
    pub code: Option<String>,
    pub error: Option<String>,
}

impl BindingWatchEvent {
    /// A `change` event for `path`.
    pub fn change(path: String) -> (r: Self)
        ensures
            r.kind@ == "change"@,
            r.path == Some(path),
            r.modules is None,
            r.code is None,
            r.error is None,
    {
        BindingWatchEvent { kind: String::from_str("change"), path: Some(path), modules: None, code: None, error: None }
    }

    /// A `bundle_end` event with the rebuilt bundle.
    pub fn bundle_end(modules: Vec<String>, code: String) -> (r: Self)
        ensures
            r.kind@ == "bundle_end"@,
            r.path is None,
            r.modules == Some(modules),
            r.code == Some(code),
            r.error is None,
    {
        BindingWatchEvent {
            kind: String::from_str("bundle_end"),
            path: None,
            modules: Some(modules),
            code: Some(code),
            error: None,
        }
    }

    /// An `error` event with a message.
    pub fn error(msg: String) -> (r: Self)
        ensures
            r.kind@ == "error"@,
            r.path is None,
            r.modules is None,
            r.code is None,
            r.error == Some(msg),
    {
        BindingWatchEvent { kind: String::from_str("error"), path: None, modules: None, code: None, error: Some(msg) }
    }
}

/// Watcher options as JavaScript passes them.
#[derive(Debug)]
pub struct JsWatcherOptions {
    pub aggregate_timeout: Option<u32>,
    pub follow_symlinks: Option<bool>,
    pub poll_interval: Option<u32>,
    /// Glob patterns, e.g. `node_modules`, `.git`.
    pub ignored: Option<Vec<String>>,
}

/// The aggregate result handed to JavaScript.
#[derive(Debug)]
pub struct JsWatchResult {
    pub changed_files: Vec<String>,
    pub removed_files: Vec<String>,
}

/// The watcher setup for JavaScript options: timeouts passed through,
/// symbolic links not followed unless asked, and the ignore patterns used
/// when there is at least one.
pub fn native_watcher_setup(options: JsWatcherOptions) -> (r: (FsWatcherOptions, FsWatcherIgnored))
    ensures
        r.0.aggregate_timeout == options.aggregate_timeout,
        r.0.poll_interval == options.poll_interval,
        r.0.follow_symlinks == (match options.follow_symlinks {
            Some(b) => b,
            None => false,
        }),
        match options.ignored {
            Some(ps) => if ps@.len() > 0 {
                r.1 == FsWatcherIgnored::Paths(ps)
            } else {
                r.1 is Nothing
            },
            None => r.1 is Nothing,
        },
{
    let ignored = match options.ignored {
        Some(paths) => {
            if paths.len() > 0 {
                FsWatcherIgnored::Paths(paths)
            } else {
                FsWatcherIgnored::Nothing
            }
        },
        None => FsWatcherIgnored::Nothing,
    };
    let follow = match options.follow_symlinks {
        Some(b) => b,
        None => false,
    };
    (
        FsWatcherOptions {
            aggregate_timeout: options.aggregate_timeout,
            follow_symlinks: follow,
            poll_interval: options.poll_interval,
        },
        ignored,
    )
}

/// The watcher setup for rebuild-on-change: 100 ms aggregate timeout,
/// symbolic links not followed, no polling, nothing ignored.
pub fn rebuild_watcher_setup() -> (r: (FsWatcherOptions, FsWatcherIgnored))
    ensures
        r.0.aggregate_timeout == Some(100u32),
        !r.0.follow_symlinks,
        r.0.poll_interval is None,
        r.1 is Nothing,
{
    (
        FsWatcherOptions { aggregate_timeout: Some(100), follow_symlinks: false, poll_interval: None },
        FsWatcherIgnored::Nothing,
    )
}

/// The directory watched for an entry: its parent, or `.` when it has none.
pub fn watch_dir(input: &str) -> (r: String)
    ensures
        r@ == (match path_parent(input@) {
            Some(d) => d,
            None => "."@,
        }),
{
    match parent_of(input) {
        Some(d) => d,
        None => String::from_str("."),
    }
}

} // verus!
