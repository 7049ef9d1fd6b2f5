use vstd::prelude::*;

verus! {

/// A tracked site: its canonical URL, the HTTP status last observed for it
/// (0 stands for unreachable), when that status was recorded, and the chat
/// identity that owns this record.
#[derive(Debug, Clone)]
pub struct Website {
    pub id: Option<u64>,
    pub url: String,
    pub last_updated: String,
    pub status: i32,
    pub telegram_id: String,
}

/// The mathematical value of a `Website`: every string as a sequence of
/// characters, the status as an unbounded integer.
pub struct WebsiteView {
    pub id: Option<u64>,
    pub url: Seq<char>,
    pub last_updated: Seq<char>,
    pub status: int,
    pub telegram_id: Seq<char>,
}

impl View for Website {
    type V = WebsiteView;

    open spec fn view(&self) -> WebsiteView {
        WebsiteView {
            id: self.id,
            url: self.url@,
            last_updated: self.last_updated@,
            status: self.status as int,
            telegram_id: self.telegram_id@,
        }
    }
}

impl DeepView for Website {
    type V = WebsiteView;

    open spec fn deep_view(&self) -> WebsiteView {
        self.view()
    }
}

impl Website {
    /// A field-by-field copy of the record.
    pub fn duplicate(&self) -> (r: Website)
        ensures
            r == *self,
    {
        Website {
            id: self.id,
            url: self.url.clone(),
            last_updated: self.last_updated.clone(),
            status: self.status,
            telegram_id: self.telegram_id.clone(),
        }
    }

    /// The record a freshly tracked site gets: it was just confirmed
    /// reachable, so it starts out optimistically at status 200.
    pub fn fresh(url: &str, telegram_id: &str, now: &str) -> (w: Website)
        ensures
            w@ == (WebsiteView {
                id: None,
                url: url@,
                last_updated: now@,
                status: 200,
                telegram_id: telegram_id@,
            }),
    {
        Website {
            id: None,
            url: url.to_owned(),
            last_updated: now.to_owned(),
            status: 200,
            telegram_id: telegram_id.to_owned(),
        }
    }
}

/// A chat identity that tracks sites.
#[derive(Debug, Clone)]
pub struct User {
    pub id: i32,
    pub name: Option<String>,
    pub plan_type: Option<String>,
    pub telegram_id: i32,
}

/// One row of the many-to-many association between owners and sites.
#[derive(Debug, Clone)]
pub struct UserWebsite {
    pub user_id: i32,
    pub website_id: i32,
}

/// Runtime configuration: the list of known-reliable sites the baseline gate
/// probes before a poll cycle is trusted.
#[derive(Debug)]
pub struct Config {
    pub baseline_sites: Vec<String>,
}

} // verus!
