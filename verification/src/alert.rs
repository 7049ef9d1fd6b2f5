use vstd::prelude::*;

use crate::numfmt::{spec_udigits, u32_to_string};
use crate::site::{Website, WebsiteView};

verus! {

/// The status reference link an alert message embeds for a numeric code.
pub open spec fn spec_status_link(code: int) -> Seq<char>
    recommends
        0 <= code,
{
    "<a href='https://httpstatuses.com/"@ + spec_udigits(code as nat) + "'>"@ + spec_udigits(
        code as nat,
    ) + "</a>"@
}

/// The alert message for one site and one status code. Codes are bucketed:
/// 0 and 1 mean the site could not be reached at all, 200–299 that it is
/// live, 400–499 a client-side issue, 500–599 a server-side issue, and
/// anything else is unexpected.
pub open spec fn spec_process(site: Seq<char>, code: int) -> Seq<char> {
    let head = "Site: "@ + site + "\n\n"@;
    if code == 0 || code == 1 {
        head + "Hoppla! We faced an error trying to reach the site! 🤒"@
    } else if 200 <= code && code <= 299 {
        head + "Joohoo! It's live and kicking! 🙂\n\nStatus: "@ + spec_status_link(code)
    } else if 400 <= code && code <= 499 {
        head + "Erm! Did I do something wrong? 🤔\n\nStatus: "@ + spec_status_link(code)
    } else if 500 <= code && code <= 599 {
        head + "Schade! It's down or inaccessible to me! 😟\n\nStatus: "@ + spec_status_link(code)
    } else {
        head + "Something is fishy! 🐟"@
    }
}

fn status_link(code: i32) -> (r: String)
    requires
        0 <= code,
    ensures
        r@ == spec_status_link(code as int),
{
    let mut s = String::from_str("<a href='https://httpstatuses.com/");
    let num = u32_to_string(code as u32);
    s.append(num.as_str());
    s.append("'>");
    s.append(num.as_str());
    s.append("</a>");
    proof {
        assert(s@ =~= spec_status_link(code as int));
    }
    s
}

/// Builds the alert message for one site and one status code.
pub fn process(site: &str, code: i32) -> (r: String)
    ensures
        r@ == spec_process(site@, code as int),
{
    let mut output = String::from_str("Site: ");
    output.append(site);
    output.append("\n\n");
    if code == 0 || code == 1 {
        output.append("Hoppla! We faced an error trying to reach the site! 🤒");
    } else if 200 <= code && code <= 299 {
        output.append("Joohoo! It's live and kicking! 🙂\n\nStatus: ");
        output.append(status_link(code).as_str());
    } else if 400 <= code && code <= 499 {
        output.append("Erm! Did I do something wrong? 🤔\n\nStatus: ");
        output.append(status_link(code).as_str());
    } else if 500 <= code && code <= 599 {
        output.append("Schade! It's down or inaccessible to me! 😟\n\nStatus: ");
        output.append(status_link(code).as_str());
    } else {
        output.append("Something is fishy! 🐟");
    }
    proof {
        assert(output@ =~= spec_process(site@, code as int));
    }
    output
}

/// The outbound messaging channel. What an implementation has attempted to
/// deliver so far is modelled by `sent`, a log of (recipient, message)
/// pairs; delivery itself is best-effort, so `send` may report failure but
/// always logs the attempt. What is proved through this interface holds of
/// implementations that meet this contract; an implementation outside the
/// library is trusted to.
pub trait Messenger: Sized {
    /// The (recipient, message) pairs attempted so far, oldest first. A
    /// channel outside the library is modelled as an empty log unless it
    /// says otherwise.
    open spec fn sent(&self) -> Seq<(Seq<char>, Seq<char>)> {
        Seq::empty()
    }

    fn send(&mut self, recipient: &str, message: &str) -> (ok: bool)
        ensures
            final(self).sent() == old(self).sent().push((recipient@, message@)),
    ;
}

/// The alerts one changed-site set fans out to: one message per record,
/// addressed to the record's owner, in list order.
pub open spec fn spec_alerts(webs: Seq<WebsiteView>) -> Seq<(Seq<char>, Seq<char>)> {
    webs.map(|i: int, w: WebsiteView| (w.telegram_id, spec_process(w.url, w.status)))
}

/// Sends one alert per changed site to the site's owner. Delivery failure to
/// one owner does not block the rest: every record's alert is attempted.
pub fn alert_users<M: Messenger>(bot: &mut M, changed_webs: &Vec<Website>)
    ensures
        final(bot).sent() == old(bot).sent() + spec_alerts(changed_webs.deep_view()),
{
    let mut i: usize = 0;
    while i < changed_webs.len()
        invariant
            i <= changed_webs@.len(),
            bot.sent() == old(bot).sent() + spec_alerts(changed_webs.deep_view().take(i as int)),
        decreases changed_webs@.len() - i,
    {
        let w = &changed_webs[i];
        let message = process(w.url.as_str(), w.status);
        let _ = bot.send(w.telegram_id.as_str(), message.as_str());
        proof {
            let dv = changed_webs.deep_view();
            assert(dv.take(i + 1) =~= dv.take(i as int).push(dv[i as int]));
            assert(spec_alerts(dv.take(i as int).push(dv[i as int])) =~= spec_alerts(
                dv.take(i as int),
            ).push((dv[i as int].telegram_id, spec_process(dv[i as int].url, dv[i as int].status))));
            assert(bot.sent() =~= old(bot).sent() + spec_alerts(dv.take(i + 1)));
        }
        i += 1;
    }
    proof {
        assert(changed_webs.deep_view().take(changed_webs@.len() as int) =~= changed_webs.deep_view());
    }
}

/// A messaging channel for tests and proofs: it records every attempt, and
/// reports success or failure as configured.
pub struct RecordingMessenger {
    pub log: Vec<(String, String)>,
    pub deliver: bool,
}

impl RecordingMessenger {
    /// An empty channel that reports success for each attempt iff `deliver`.
    pub fn new(deliver: bool) -> (r: RecordingMessenger)
        ensures
            r.sent() == Seq::<(Seq<char>, Seq<char>)>::empty(),
            r.deliver == deliver,
    {
        let r = RecordingMessenger { log: Vec::new(), deliver };
        proof {
            assert(r.sent() =~= Seq::<(Seq<char>, Seq<char>)>::empty());
        }
        r
    }

    /// How many attempts were recorded.
    pub fn count(&self) -> (n: usize)
        ensures
            n == self.sent().len(),
    {
        self.log.len()
    }
}

impl Messenger for RecordingMessenger {
    open spec fn sent(&self) -> Seq<(Seq<char>, Seq<char>)> {
        self.log.deep_view()
    }

    fn send(&mut self, recipient: &str, message: &str) -> (ok: bool) {
        self.log.push((recipient.to_owned(), message.to_owned()));
        proof {
            assert(self.log.deep_view() =~= old(self).log.deep_view().push(
                (recipient@, message@),
            ));
        }
        self.deliver
    }
}

} // verus!
