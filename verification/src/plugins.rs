//! Node-link plugins: the interfaces a plugin implements, and the decisions
//! taken while plugins are found and chosen.
use vstd::prelude::*;

use crate::text::str_eq;

verus! {

broadcast use vstd::string::group_string_axioms;

// ========================= Plugin traits ========================= //

/// The character sequences of an account query's answer.
pub open spec fn answer_view(r: Result<Vec<String>, String>) -> Result<Seq<String>, Seq<char>> {
    match r {
        Ok(v) => Ok(v@),
        Err(e) => Err(e@),
    }
}

/// Client of a link to a node.
pub trait NodeLinkClient {
    /// Whether `r` (the accounts, or why they could not be had) is an answer this
    /// client may give when asked for the accounts at `addresses`. A client that
    /// states nothing of its answers keeps this default: any answer.
    open spec fn may_answer(&self, addresses: Seq<String>, r: Result<Seq<String>, Seq<char>>) -> bool {
        true
    }

    /// The account information of each of `addresses`, or why it could not be had.
    fn query_accounts(&mut self, addresses: Vec<String>) -> (res: Result<Vec<String>, String>)
        ensures
            old(self).may_answer(addresses@, answer_view(res)),
    ;
}

impl<C: NodeLinkClient + ?Sized> NodeLinkClient for Box<C> {
    /// A boxed client answers as the client in the box.
    open spec fn may_answer(&self, addresses: Seq<String>, r: Result<Seq<String>, Seq<char>>) -> bool {
        (**self).may_answer(addresses, r)
    }

    fn query_accounts(&mut self, addresses: Vec<String>) -> (res: Result<Vec<String>, String>) {
        (**self).query_accounts(addresses)
    }
}

/// Link to a node (front or console).
pub trait NodeLink {
    /// The clients this link creates.
    type Client: NodeLinkClient;

    /// A client configured by the text of the plugin's configuration file.
    fn create_client(&self, cfg_str: String) -> Self::Client;

    /// The name under which the link is chosen.
    fn name(&self) -> String;
}

// ^^^^^^^^^^^^^^^^^^^^^^^^^ Plugin traits ^^^^^^^^^^^^^^^^^^^^^^^^^ //

/// Operating systems with a known dynamic-library file extension.
#[derive(PartialEq, Eq, Structural, Clone, Copy, Debug)]
pub enum TargetOs {
    Linux,
    FreeBsd,
    DragonFly,
    MacOs,
    Windows,
}

/// The file extension of dynamic libraries on `os`.
pub open spec fn dylib_extension_of(os: TargetOs) -> Seq<char> {
    match os {
        TargetOs::Linux | TargetOs::FreeBsd | TargetOs::DragonFly => "so"@,
        TargetOs::MacOs => "dylib"@,
        TargetOs::Windows => "dll"@,
    }
}

/// The file extension of dynamic libraries on `os`.
pub fn get_dylib_extension(os: TargetOs) -> (res: &'static str)
    ensures
        res@ == dylib_extension_of(os),
{
    match os {
        TargetOs::Linux | TargetOs::FreeBsd | TargetOs::DragonFly => "so",
        TargetOs::MacOs => "dylib",
        TargetOs::Windows => "dll",
    }
}

/// Whether a directory entry is a plugin library: not a directory, and with the
/// dynamic-library extension.
pub fn is_plugin_library(is_dir: bool, extension: &str, dylib_ext: &str) -> (res: bool)
    ensures
        res == (!is_dir && extension@ == dylib_ext@),
{
    !is_dir && str_eq(extension, dylib_ext)
}

/// The message of a failure to list the plugin directory.
pub fn entry_error_message(e: &str) -> (res: String)
    ensures
        res@ == "Error iterating plugin entries: "@ + e@,
{
    let mut m = String::from_str("Error iterating plugin entries: ");
    m.append(e);
    m
}

/// `path` with its file extension `extension` replaced by `cfg`.
pub open spec fn config_path_of(path: Seq<char>, extension: Seq<char>) -> Seq<char> {
    path.subrange(0, path.len() - extension.len()) + "cfg"@
}

/// The configuration file of a plugin library: the library's path with its
/// extension replaced by `cfg`.
pub fn plugin_config_path(lib_path: &str, extension: &str) -> (res: String)
    requires
        extension@.len() < lib_path@.len(),
        lib_path@.subrange(lib_path@.len() - extension@.len() - 1, lib_path@.len() as int) == seq![
            '.',
        ] + extension@,
    ensures
        res@ == config_path_of(lib_path@, extension@),
{
    let keep = lib_path.unicode_len() - extension.unicode_len();
    let mut res = String::from_str(lib_path.substring_char(0, keep));
    res.append("cfg");
    res
}

/// The first position in `names` that holds `Some(name)`.
pub open spec fn is_first_link(names: Seq<Option<Seq<char>>>, name: Seq<char>, i: int) -> bool {
    &&& 0 <= i < names.len()
    &&& names[i] == Some(name)
    &&& forall|j: int| 0 <= j < i ==> names[j] != Some(name)
}

/// The optional character sequences of a sequence of optional strings.
pub open spec fn opt_strings_view(v: Seq<Option<String>>) -> Seq<Option<Seq<char>>> {
    v.map_values(
        |o: Option<String>|
            match o {
                Some(s) => Some(s@),
                None => None,
            },
    )
}

/// The position of the first plugin whose link has the name `name`, given the
/// link names of the plugins in order (`None` for a plugin without a link).
pub fn find_link(link_names: &Vec<Option<String>>, name: &str) -> (res: Option<usize>)
    ensures
        match res {
            Some(i) => is_first_link(opt_strings_view(link_names@), name@, i as int),
            None => forall|j: int|
                0 <= j < link_names@.len() ==> opt_strings_view(link_names@)[j] != Some(name@),
        },
{
    let ghost names = opt_strings_view(link_names@);
    let mut i: usize = 0;
    while i < link_names.len()
        invariant
            names == opt_strings_view(link_names@),
            names.len() == link_names@.len(),
            i <= link_names@.len(),
            forall|j: int| 0 <= j < i ==> names[j] != Some(name@),
        decreases link_names@.len() - i,
    {
        match &link_names[i] {
            Some(n) => {
                if str_eq(n.as_str(), name) {
                    return Some(i);
                }
            },
            None => {},
        }
        i = i + 1;
    }
    None
}

/// The names present in a sequence of optional names, in order.
pub open spec fn present_names(s: Seq<Option<Seq<char>>>) -> Seq<Seq<char>>
    decreases s.len(),
{
    if s.len() == 0 {
        seq![]
    } else {
        match s.last() {
            Some(n) => present_names(s.drop_last()).push(n),
            None => present_names(s.drop_last()),
        }
    }
}

/// The link names of the plugins that have a link, in order.
pub fn link_names(names: &Vec<Option<String>>) -> (res: Vec<String>)
    ensures
        res@.map_values(|s: String| s@) == present_names(opt_strings_view(names@)),
{
    let ghost all = opt_strings_view(names@);
    let mut res: Vec<String> = Vec::new();
    let mut i: usize = 0;
    while i < names.len()
        invariant
            all == opt_strings_view(names@),
            all.len() == names@.len(),
            i <= names@.len(),
            res@.map_values(|s: String| s@) == present_names(all.take(i as int)),
        decreases names@.len() - i,
    {
        assert(all.take(i + 1).drop_last() =~= all.take(i as int));
        match &names[i] {
            Some(n) => {
                res.push(n.clone());
                assert(res@.map_values(|s: String| s@) =~= present_names(all.take(i as int)).push(
                    n@,
                ));
            },
            None => {},
        }
        i = i + 1;
    }
    assert(all.take(names@.len() as int) =~= all);
    res
}

} // verus!
