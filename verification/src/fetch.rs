//! Fetching the published description of a module: which address to ask,
//! and what to do with each answer.

use vstd::prelude::*;
use vstd::string::*;
use crate::error::DecodeError;
use crate::json::{parse_event_data, parsed_json, Json, JsonValue};
use crate::payload::ModuleId;
use crate::text::contains_text;

verus! {

/// The networks that are asked for a module, in this order.
#[derive(Clone, Copy, Debug, PartialEq, Eq, Structural)]
pub enum Network {
    Primary,
    Secondary,
}

/// The answer to one request.
#[derive(Debug, PartialEq, Eq)]
pub enum FetchReply {
    /// The request did not come back with a body.
    Failed,
    /// The body of the answer, as text.
    Body(String),
}

/// What to do after an answer.
#[derive(Debug, PartialEq, Eq)]
pub enum FetchStep {
    /// Ask this network next.
    Ask(Network),
    /// The module's description, or why there is none.
    Done(Result<Json, DecodeError>),
}

/// The node of a network.
pub open spec fn node_url(network: Network) -> Seq<char> {
    match network {
        Network::Primary => "https://fullnode.mainnet.aptoslabs.com"@,
        Network::Secondary => "https://fullnode.testnet.aptoslabs.com"@,
    }
}

/// The address at which a network publishes a module.
pub open spec fn module_url(network: Network, address: Seq<char>, name: Seq<char>) -> Seq<char> {
    node_url(network) + "/v1/accounts/"@ + address + "/module/"@ + name
}

/// The address to ask for a module on a network.
pub fn request_url(network: Network, module: &ModuleId) -> (r: String)
    ensures
        r@ == module_url(network, module.address@, module.name@),
{
    let mut url = match network {
        Network::Primary => String::from_str("https://fullnode.mainnet.aptoslabs.com"),
        Network::Secondary => String::from_str("https://fullnode.testnet.aptoslabs.com"),
    };
    url.append("/v1/accounts/");
    url.append(module.address.as_str());
    url.append("/module/");
    url.append(module.name.as_str());
    url
}

/// A pattern in which every character stands for itself: letters, digits
/// and underscores only, and not too long to compile.
pub open spec fn is_plain_pattern(pattern: Seq<char>) -> bool {
    pattern.len() <= 256 && forall|i: int|
        0 <= i < pattern.len() ==> {
            let c = #[trigger] pattern[i];
            ('a' <= c <= 'z') || ('A' <= c <= 'Z') || ('0' <= c <= '9') || c == '_'
        }
}

/// Searches with `regex::Regex::is_match`. For a pattern of letters, digits
/// and underscores, there is a match exactly when the pattern occurs in the
/// text.
#[verifier::external_body]
fn pattern_found(pattern: &str, text: &str) -> (r: bool)
    requires
        is_plain_pattern(pattern@),
    ensures
        r == contains_text(text@, pattern@),
{
    match regex::Regex::new(pattern) {
        Ok(re) => re.is_match(text),
        Err(_) => false,
    }
}

/// The mark of a module that a network does not have.
pub open spec fn not_found_mark() -> Seq<char> {
    "module_not_found"@
}

/// What follows an answer, as a value.
pub enum Verdict {
    /// Ask this network next.
    Ask(Network),
    /// The fetch ends without a description.
    Failed(DecodeError),
    /// The fetch ends with this description.
    Found(JsonValue),
}

/// The value of a step.
pub open spec fn verdict_of(step: FetchStep) -> Verdict {
    match step {
        FetchStep::Ask(network) => Verdict::Ask(network),
        FetchStep::Done(Err(e)) => Verdict::Failed(e),
        FetchStep::Done(Ok(j)) => Verdict::Found(j@),
    }
}

/// What follows the answer of the network that was asked. A request that
/// failed, or a body that is not JSON, ends the fetch with an error. A body
/// from the first network that reports the module as not found is followed
/// by a request to the second. Any other body is the module's description.
pub open spec fn fetch_outcome(asked: Network, reply: FetchReply) -> Verdict {
    match reply {
        FetchReply::Failed => Verdict::Failed(DecodeError::Transport),
        FetchReply::Body(text) => match parsed_json(text@) {
            None => Verdict::Failed(DecodeError::MalformedJson),
            Some(description) => if asked == Network::Primary && contains_text(
                text@,
                not_found_mark(),
            ) {
                Verdict::Ask(Network::Secondary)
            } else {
                Verdict::Found(description)
            },
        },
    }
}

/// Decides what follows the answer of the network that was asked.
pub fn fetch_function_details(asked: Network, reply: &FetchReply) -> (r: FetchStep)
    ensures
        verdict_of(r) == fetch_outcome(asked, *reply),
{
    match reply {
        FetchReply::Failed => FetchStep::Done(Err(DecodeError::Transport)),
        FetchReply::Body(text) => match parse_event_data(text.as_str()) {
            Err(e) => FetchStep::Done(Err(e)),
            Ok(j) => {
                proof {
                    reveal_strlit("module_not_found");
                }
                let missing = pattern_found("module_not_found", text.as_str());
                match asked {
                    Network::Primary => if missing {
                        FetchStep::Ask(Network::Secondary)
                    } else {
                        FetchStep::Done(Ok(j))
                    },
                    Network::Secondary => FetchStep::Done(Ok(j)),
                }
            },
        },
    }
}

} // verus!
