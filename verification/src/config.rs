use vstd::prelude::*;
use vstd::string::*;
use crate::decimal::{decimal, push_decimal};
use crate::highlighter::string_views;
use crate::text::{debug_quoted, str_debug};

verus! {

/// Settings of the watcher, as read from its configuration file.
pub struct Config {
    /// Port of the web interface.
    pub port: u16,
    /// Seconds between two polls of Hacker News; 0 disables polling.
    pub poll_interval_in_seconds: u64,
    /// Keywords that make a job interesting.
    pub keywords: Vec<String>,
    /// Account used to send notification emails.
    pub gmail_email: String,
    pub gmail_password: String,
}

/// The polling period, in seconds, that a configured value stands for:
/// 0 (polling disabled) becomes the largest period there is.
pub open spec fn effective_poll_interval(configured: u64) -> u64 {
    if configured == 0 {
        u64::MAX
    } else {
        configured
    }
}

/// The polling period in seconds, or `None` when polling is disabled
/// (a configured period of 0).
pub fn interval_from_config(config: &Config) -> (r: Option<u64>)
    ensures
        r is None <==> config.poll_interval_in_seconds == 0,
        r matches Some(secs) ==> secs == config.poll_interval_in_seconds,
{
    if config.poll_interval_in_seconds == 0 {
        None
    } else {
        Some(config.poll_interval_in_seconds)
    }
}

/// The quoted forms of `items`, separated by ", ".
pub open spec fn debug_list_items(items: Seq<Seq<char>>) -> Seq<char>
    decreases items.len(),
{
    if items.len() == 0 {
        Seq::empty()
    } else if items.len() == 1 {
        str_debug(items[0])
    } else {
        debug_list_items(items.drop_last()) + ", "@ + str_debug(items.last())
    }
}

/// How a configuration is shown in logs: every setting but the password,
/// which shows as six stars whatever it is.
pub open spec fn config_description(port: u16, poll_interval_in_seconds: u64, keywords: Seq<Seq<char>>, gmail_email: Seq<char>) -> Seq<char> {
    "Config { port: "@ + decimal(port as nat) + ", poll_interval_in_seconds: "@ + decimal(
        poll_interval_in_seconds as nat,
    ) + ", keywords: ["@ + debug_list_items(keywords) + "], gmail_email: "@ + str_debug(gmail_email)
        + ", gmail_password: "@ + str_debug("******"@) + " }"@
}

/// Two configurations that differ at most in their password are shown alike.
pub proof fn law_description_hides_password(a: Config, b: Config)
    requires
        a.port == b.port,
        a.poll_interval_in_seconds == b.poll_interval_in_seconds,
        string_views(a.keywords@) == string_views(b.keywords@),
        a.gmail_email@ == b.gmail_email@,
    ensures
        config_description(a.port, a.poll_interval_in_seconds, string_views(a.keywords@), a.gmail_email@)
            == config_description(b.port, b.poll_interval_in_seconds, string_views(b.keywords@), b.gmail_email@),
{
}

impl Config {
    /// The configuration as logs show it, with the password hidden.
    pub fn describe(&self) -> (r: String)
        ensures
            r@ == config_description(
                self.port,
                self.poll_interval_in_seconds,
                string_views(self.keywords@),
                self.gmail_email@,
            ),
    {
        let ghost kws = string_views(self.keywords@);
        let mut out = String::from_str("Config { port: ");
        push_decimal(&mut out, self.port as u64);
        out.append(", poll_interval_in_seconds: ");
        push_decimal(&mut out, self.poll_interval_in_seconds);
        out.append(", keywords: [");
        let ghost head = out@;
        let mut i: usize = 0;
        while i < self.keywords.len()
            invariant
                i <= self.keywords@.len(),
                kws == string_views(self.keywords@),
                out@ == head + debug_list_items(kws.take(i as int)),
            decreases self.keywords@.len() - i,
        {
            proof {
                assert(kws.take(i + 1).drop_last() =~= kws.take(i as int));
                assert(kws.take(i + 1).last() == self.keywords@[i as int]@);
            }
            if i > 0 {
                out.append(", ");
            }
            let quoted = debug_quoted(self.keywords[i].as_str());
            out.append(quoted.as_str());
            proof {
                if i == 0 {
                    assert(kws.take(1) =~= seq![kws[0]]);
                }
                assert(out@ =~= head + debug_list_items(kws.take(i + 1)));
            }
            i = i + 1;
        }
        proof {
            assert(kws.take(i as int) =~= kws);
        }
        out.append("], gmail_email: ");
        let email = debug_quoted(self.gmail_email.as_str());
        out.append(email.as_str());
        out.append(", gmail_password: ");
        let stars = debug_quoted("******");
        out.append(stars.as_str());
        out.append(" }");
        assert(out@ =~= config_description(
            self.port,
            self.poll_interval_in_seconds,
            kws,
            self.gmail_email@,
        ));
        out
    }

    /// Seconds between two polls; a configured 0 disables polling by
    /// waiting for the largest period there is.
    pub fn poll_interval(&self) -> (r: u64)
        ensures
            r == effective_poll_interval(self.poll_interval_in_seconds),
            r > 0,
    {
        let mut result = self.poll_interval_in_seconds;
        if result == 0 {
            result = u64::MAX;
        }
        result
    }
}

} // verus!
