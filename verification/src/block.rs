//! The GitHub block: configuration, cached state, and one update cycle's
//! bookkeeping around the fetch-and-aggregate core.

use vstd::prelude::*;
use vstd::string::*;

use crate::fetch::Notifications;
use crate::tally::Tally;
use crate::BlockError;

verus! {

/// The block's configuration, as the user supplies it.
pub struct GithubConfig {
    /// Update interval in seconds.
    pub interval: u64,
    /// The API root the first page's path is appended to.
    pub api_server: String,
    /// Format override for the presentation layer.
    pub format: String,
    /// Hide the widget while the cached total is zero.
    pub hide_if_total_is_zero: bool,
}

impl Default for GithubConfig {
    /// The stock configuration: poll every thirty seconds against the
    /// public API, render the total alone, show the widget even at zero.
    fn default() -> (c: Self)
        ensures
            c.interval == 30,
            c.api_server@ == "https://api.github.com"@,
            c.format@ == "{total}"@,
            !c.hide_if_total_is_zero,
    {
        GithubConfig {
            interval: 30,
            api_server: String::from_str("https://api.github.com"),
            format: String::from_str("{total}"),
            hide_if_total_is_zero: false,
        }
    }
}

/// The zero-filled projection handed to the presentation layer: the fixed
/// field set, each known reason code's count defaulting to zero when it was
/// never observed.
#[derive(Debug, Clone, Copy, PartialEq, Eq, Structural)]
pub struct ReasonCounts {
    pub total: u64,
    pub assign: u64,
    pub author: u64,
    pub comment: u64,
    pub invitation: u64,
    pub manual: u64,
    pub mention: u64,
    pub review_requested: u64,
    pub security_alert: u64,
    pub state_change: u64,
    pub subscribed: u64,
    pub team_mention: u64,
}

/// A tally's count under a key, zero when the key was never observed.
pub open spec fn get_or_zero(m: Map<Seq<char>, u64>, k: Seq<char>) -> u64 {
    if m.contains_key(k) {
        m[k]
    } else {
        0u64
    }
}

/// The projection of a tally onto the fixed field set.
pub open spec fn spec_project(m: Map<Seq<char>, u64>) -> ReasonCounts {
    ReasonCounts {
        total: get_or_zero(m, "total"@),
        assign: get_or_zero(m, "assign"@),
        author: get_or_zero(m, "author"@),
        comment: get_or_zero(m, "comment"@),
        invitation: get_or_zero(m, "invitation"@),
        manual: get_or_zero(m, "manual"@),
        mention: get_or_zero(m, "mention"@),
        review_requested: get_or_zero(m, "review_requested"@),
        security_alert: get_or_zero(m, "security_alert"@),
        state_change: get_or_zero(m, "state_change"@),
        subscribed: get_or_zero(m, "subscribed"@),
        team_mention: get_or_zero(m, "team_mention"@),
    }
}

/// Projects a tally onto the fixed field set, zero-filling every known
/// reason code that was never observed.
pub fn project(t: &Tally) -> (c: ReasonCounts)
    requires
        t.wf(),
    ensures
        c == spec_project(t@),
{
    ReasonCounts {
        total: t.get("total"),
        assign: t.get("assign"),
        author: t.get("author"),
        comment: t.get("comment"),
        invitation: t.get("invitation"),
        manual: t.get("manual"),
        mention: t.get("mention"),
        review_requested: t.get("review_requested"),
        security_alert: t.get("security_alert"),
        state_change: t.get("state_change"),
        subscribed: t.get("subscribed"),
        team_mention: t.get("team_mention"),
    }
}

/// The GitHub block: its identity, cached display state, and the
/// configuration one update cycle works from.
pub struct Github {
    id: usize,
    text: String,
    update_interval: u64,
    api_server: String,
    token: String,
    format: String,
    total_notifications: u64,
    hide_if_total_is_zero: bool,
}

impl Github {
    /// The block's identity.
    pub closed spec fn spec_id(&self) -> usize {
        self.id
    }

    /// The displayed text.
    pub closed spec fn spec_text(&self) -> Seq<char> {
        self.text@
    }

    /// The fixed re-poll delay, in seconds.
    pub closed spec fn spec_interval(&self) -> u64 {
        self.update_interval
    }

    /// The API root.
    pub closed spec fn spec_api_server(&self) -> Seq<char> {
        self.api_server@
    }

    /// The bearer credential.
    pub closed spec fn spec_token(&self) -> Seq<char> {
        self.token@
    }

    /// The format override the presentation layer renders with.
    pub closed spec fn spec_format(&self) -> Seq<char> {
        self.format@
    }

    /// The total of the last successful cycle.
    pub closed spec fn spec_total(&self) -> u64 {
        self.total_notifications
    }

    /// The hide-while-zero policy flag.
    pub closed spec fn spec_hide(&self) -> bool {
        self.hide_if_total_is_zero
    }

    /// Everything but the cached display state: unchanged by update cycles.
    pub open spec fn same_config(&self, other: &Github) -> bool {
        &&& self.spec_id() == other.spec_id()
        &&& self.spec_interval() == other.spec_interval()
        &&& self.spec_api_server() == other.spec_api_server()
        &&& self.spec_token() == other.spec_token()
        &&& self.spec_format() == other.spec_format()
        &&& self.spec_hide() == other.spec_hide()
    }

    /// Builds the block from its configuration and the credential the
    /// caller obtained; a missing credential fails construction, before any
    /// cycle runs.
    pub fn new(id: usize, config: GithubConfig, token: Option<String>) -> (r: Result<
        Github,
        BlockError,
    >)
        ensures
            match r {
                Ok(g) => {
                    &&& token matches Some(t) && g.spec_token() == t@
                    &&& g.spec_id() == id
                    &&& g.spec_interval() == config.interval
                    &&& g.spec_api_server() == config.api_server@
                    &&& g.spec_format() == config.format@
                    &&& g.spec_hide() == config.hide_if_total_is_zero
                    &&& g.spec_total() == 0
                    &&& g.spec_text() == "x"@
                },
                Err(e) => e == BlockError::MissingCredential && token is None,
            },
    {
        let token = match token {
            Some(t) => t,
            None => {
                return Err(BlockError::MissingCredential);
            },
        };
        Ok(
            Github {
                id,
                text: String::from_str("x"),
                update_interval: config.interval,
                api_server: config.api_server,
                token,
                format: config.format,
                total_notifications: 0,
                hide_if_total_is_zero: config.hide_if_total_is_zero,
            },
        )
    }

    /// A fresh fetcher for one cycle's paginated walk.
    pub fn fetcher(&self) -> (f: Notifications)
        ensures
            f.buffered() == Seq::<Seq<char>>::empty(),
            f.cursor() == self.spec_api_server() + "/notifications"@,
            f.credential() == self.spec_token(),
    {
        Notifications::new(self.api_server.as_str(), self.token.as_str())
    }

    /// One cycle's bookkeeping, fed the outcome of aggregating a full
    /// paginated fetch. On failure the displayed text degrades to the fixed
    /// error indicator and the cached total keeps its prior value. On
    /// success the cached total is refreshed and the zero-filled projection
    /// is handed back for the presentation layer to render. Either way the
    /// same fixed re-poll delay is reported.
    pub fn update(&mut self, outcome: Result<Tally, BlockError>) -> (r: (Option<ReasonCounts>, u64))
        requires
            outcome matches Ok(t) ==> t.wf(),
        ensures
            r.1 == old(self).spec_interval(),
            final(self).same_config(old(self)),
            match outcome {
                Err(_) => {
                    &&& r.0 is None
                    &&& final(self).spec_text() == "x"@
                    &&& final(self).spec_total() == old(self).spec_total()
                },
                Ok(t) => {
                    &&& r.0 matches Some(c) && c == spec_project(t@)
                    &&& final(self).spec_total() == get_or_zero(t@, "total"@)
                    &&& final(self).spec_text() == old(self).spec_text()
                },
            },
    {
        match outcome {
            Ok(t) => {
                let c = project(&t);
                self.total_notifications = c.total;
                (Some(c), self.update_interval)
            },
            Err(_) => {
                self.text = String::from_str("x");
                (None, self.update_interval)
            },
        }
    }

    /// Installs the text the presentation layer rendered from a successful
    /// cycle's projection.
    pub fn set_text(&mut self, text: String)
        ensures
            final(self).spec_text() == text@,
            final(self).same_config(old(self)),
            final(self).spec_total() == old(self).spec_total(),
    {
        self.text = text;
    }

    /// The widget to show: the text, unless the hide-while-zero policy is
    /// on and the cached total is zero.
    pub fn view_text(&self) -> (r: Option<&String>)
        ensures
            (r is None) == (self.spec_hide() && self.spec_total() == 0),
            r matches Some(s) ==> s@ == self.spec_text(),
    {
        if self.hide_if_total_is_zero && self.total_notifications == 0 {
            None
        } else {
            Some(&self.text)
        }
    }

    /// The format override, for the presentation layer to render with.
    pub fn format_template(&self) -> (r: &String)
        ensures
            r@ == self.spec_format(),
    {
        &self.format
    }

    /// The block's identity, as the scheduler addresses it.
    pub fn id(&self) -> (r: usize)
        ensures
            r == self.spec_id(),
    {
        self.id
    }
}

} // verus!
