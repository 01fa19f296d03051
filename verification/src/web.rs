//! The requests that are sent, and how their answers are judged.

use vstd::prelude::*;

use crate::text::joined;

verus! {

/// Where the detectable games are listed.
pub const DISCORD_GAMES_API_URL: &'static str = "https://discord.com/api/v9/games/detectable";

/// Where the detectable applications that are no games are listed.
pub const DISCORD_NON_GAMES_API_URL: &'static str =
    "https://discord.com/api/v9/applications/non-games/detectable";

/// Where the information on a Steam app is found, followed by its id.
pub const STEAMCMD_INFO_API_URL: &'static str = "https://api.steamcmd.net/v1/info";

/// What the requests give as their user agent.
pub const USER_AGENT: &'static str = "Disactivity/0.1.0";

/// The status code of an answer.
#[derive(Debug, Clone, Copy)]
pub struct Status {
    code: u16,
}

impl View for Status {
    type V = u16;

    closed spec fn view(&self) -> u16 {
        self.code
    }
}

/// Whether a status code reports success.
pub open spec fn success(code: u16) -> bool {
    200 <= code < 300
}

/// The text of a status code: the code and its usual reason.
pub uninterp spec fn status_text(code: u16) -> Seq<char>;

/// `reqwest::StatusCode` as a text, by its `Display`: a text that depends on
/// the code alone.
#[verifier::external_body]
fn status_line(code: u16) -> (r: String)
    requires
        100 <= code <= 999,
    ensures
        r@ == status_text(code),
{
    reqwest::StatusCode::from_u16(code).unwrap().to_string()
}

impl Status {
    #[verifier::type_invariant]
    spec fn valid(self) -> bool {
        100 <= self.code <= 999
    }

    /// The status with a given code, if there can be one.
    pub fn new(code: u16) -> (r: Option<Status>)
        ensures
            match r {
                Some(status) => status@ == code,
                None => true,
            },
            r is Some <==> 100 <= code <= 999,
    {
        if 100 <= code && code <= 999 {
            Some(Status { code })
        } else {
            None
        }
    }

    /// Whether the status reports success.
    pub fn is_success(&self) -> (r: bool)
        ensures
            r == success(self@),
    {
        200 <= self.code && self.code < 300
    }

    /// The status as a text.
    pub fn text(&self) -> (r: String)
        ensures
            r@ == status_text(self@),
    {
        proof {
            use_type_invariant(self);
        }
        status_line(self.code)
    }
}

/// What became of a request: the status of the answer, or why none came.
#[derive(Debug)]
pub enum Sent {
    Answered(Status),
    Failed(String),
}

/// What a `Sent` says.
pub enum SentView {
    Answered(u16),
    Failed(Seq<char>),
}

impl View for Sent {
    type V = SentView;

    open spec fn view(&self) -> SentView {
        match self {
            Sent::Answered(status) => SentView::Answered(status@),
            Sent::Failed(error) => SentView::Failed(error@),
        }
    }
}

/// Where the information on an app is found.
pub fn steam_info_url(app_id: &str) -> (r: String)
    ensures
        r@ == "https://api.steamcmd.net/v1/info"@ + "/"@ + app_id@,
{
    let base = joined(STEAMCMD_INFO_API_URL, "/");
    joined(base.as_str(), app_id)
}

/// A status reports success exactly when its code is one of the two hundreds.
pub proof fn success_is_one_of_the_two_hundreds(code: u16)
    ensures
        success(code) <==> code / 100 == 2,
{
}

} // verus!
