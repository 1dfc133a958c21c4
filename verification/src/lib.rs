//! The plugin side of the TON OS command line tool: node-link plugin
//! interfaces, and the verified logic of the `front` and `direct` links.
use vstd::prelude::*;

pub mod config;
pub mod direct;
pub mod front;
pub mod plugins;
pub mod text;

pub use config::{HD_PATH, LOCALNET, WORD_COUNT};
pub use plugins::{NodeLink, NodeLinkClient};

use plugins::answer_view;

verus! {

broadcast use vstd::string::group_string_axioms;

/// The message of a failed account query.
pub open spec fn query_error_message(e: Seq<char>) -> Seq<char> {
    "Error query accounts: "@ + e
}

/// A client's answer as the tool reports it: the accounts, or the client's
/// failure prefixed by what failed.
pub open spec fn reported_answer(r: Result<Seq<String>, Seq<char>>) -> Result<Seq<String>, Seq<char>> {
    match r {
        Ok(v) => Ok(v),
        Err(e) => Err(query_error_message(e)),
    }
}

/// The result of an account query as the tool reports it (see [`reported_answer`]).
pub open spec fn reported_query_result(r: Result<Vec<String>, String>) -> Result<
    Seq<String>,
    Seq<char>,
> {
    reported_answer(answer_view(r))
}

/// The account query result as the tool reports it (see [`reported_query_result`]).
pub fn report_query_result(r: Result<Vec<String>, String>) -> (res: Result<Vec<String>, String>)
    ensures
        match (res, reported_query_result(r)) {
            (Ok(v), Ok(w)) => v@ == w,
            (Err(m), Err(w)) => m@ == w,
            _ => false,
        },
{
    match r {
        Ok(v) => Ok(v),
        Err(e) => {
            let mut m = String::from_str("Error query accounts: ");
            m.append(e.as_str());
            Err(m)
        },
    }
}

/// Queries the information of the accounts at `addresses` through a node-link
/// client: the client is asked once, for exactly these addresses, and its
/// answer is the result, a failure reported with its message prefixed by
/// `Error query accounts: `.
pub fn run_query_accounts<C: NodeLinkClient + ?Sized>(client: &mut C, addresses: Vec<String>) -> (res:
    Result<Vec<String>, String>)
    ensures
        exists|r: Result<Seq<String>, Seq<char>>|
            #[trigger] old(client).may_answer(addresses@, r) && answer_view(res) == reported_answer(
                r,
            ),
{
    let r = client.query_accounts(addresses);
    let ghost g = answer_view(r);
    let res = report_query_result(r);
    assert(answer_view(res) == reported_answer(g));
    res
}

} // verus!
