//! Notification channels: their records, which events a channel takes,
//! the summaries the API lists, and where a delivery record is stored.

use vstd::prelude::*;
use vstd::string::*;
use crate::text::{trim, decimal};

verus! {

/// Kinds of notification channel.
#[derive(Clone, Copy, Debug, PartialEq, Eq, Structural)]
pub enum ChannelKind {
    Webhook,
    Dingtalk,
    Feishu,
    Wecom,
    Telegram,
    Slack,
    Pushplus,
    Lanxin,
}

/// A notification channel. `config` holds the kind-specific settings as
/// JSON text.
#[derive(Clone, Debug, PartialEq, Eq)]
pub struct NotificationChannel {
    pub id: String,
    pub name: String,
    pub kind: ChannelKind,
    pub enabled: bool,
    pub events: Vec<String>,
    pub lang: String,
    pub config: String,
    pub created_at_unix: u64,
    pub updated_at_unix: u64,
}

/// A channel without its settings, as the API lists it.
#[derive(Clone, Debug, PartialEq, Eq)]
pub struct NotificationChannelSummary {
    pub id: String,
    pub name: String,
    pub kind: ChannelKind,
    pub enabled: bool,
    pub events: Vec<String>,
    pub lang: String,
    pub created_at_unix: u64,
    pub updated_at_unix: u64,
}

/// The record of one delivery attempt.
#[derive(Clone, Debug, PartialEq, Eq)]
pub struct DeliveryRecord {
    pub channel_id: String,
    pub channel_name: String,
    pub event_kind: String,
    pub ok: bool,
    pub status_code: Option<u16>,
    pub error: Option<String>,
    pub response: String,
    pub attempted_at_unix: u64,
}

/// What a channel answered to a delivery.
#[derive(Clone, Debug, PartialEq, Eq)]
pub struct Delivery {
    pub ok: bool,
    pub status_code: Option<u16>,
    pub response: String,
}

/// An enabled channel takes an event when it lists no events, lists `*`,
/// or lists the event's kind.
pub open spec fn spec_matches_event(c: NotificationChannel, kind: Seq<char>) -> bool {
    c.enabled && (c.events@.len() == 0 || exists|i: int|
        0 <= i < c.events@.len() && (#[trigger] c.events@[i]@ == "*"@ || c.events@[i]@ == kind))
}

impl NotificationChannel {
    pub fn matches_event(&self, kind: &str) -> (r: bool)
        ensures
            r == spec_matches_event(*self, kind@),
    {
        if !self.enabled {
            return false;
        }
        if self.events.len() == 0 {
            return true;
        }
        let star = crate::text::chars_of("*");
        let k = crate::text::chars_of(kind);
        let mut i: usize = 0;
        while i < self.events.len()
            invariant
                0 <= i <= self.events@.len(),
                self.enabled,
                self.events@.len() > 0,
                star@ == "*"@,
                k@ == kind@,
                forall|j: int| 0 <= j < i ==> !(#[trigger] self.events@[j]@ == "*"@ || self.events@[j]@ == kind@),
            decreases self.events@.len() - i,
        {
            let e = crate::text::chars_of(self.events[i].as_str());
            if crate::text::chars_eq(&e, &star) || crate::text::chars_eq(&e, &k) {
                return true;
            }
            i = i + 1;
        }
        false
    }
}

/// `s` summarises `c`: every field but the settings.
pub open spec fn summarises(s: NotificationChannelSummary, c: NotificationChannel) -> bool {
    &&& s.id == c.id
    &&& s.name == c.name
    &&& s.kind == c.kind
    &&& s.enabled == c.enabled
    &&& s.events@ == c.events@
    &&& s.lang == c.lang
    &&& s.created_at_unix == c.created_at_unix
    &&& s.updated_at_unix == c.updated_at_unix
}

fn clone_strings(v: &Vec<String>) -> (r: Vec<String>)
    ensures
        r@ == v@,
{
    let mut out: Vec<String> = Vec::new();
    let mut i: usize = 0;
    while i < v.len()
        invariant
            0 <= i <= v@.len(),
            out@ == v@.take(i as int),
        decreases v@.len() - i,
    {
        out.push(v[i].clone());
        assert(v@.take(i + 1) == v@.take(i as int).push(v@[i as int]));
        i = i + 1;
    }
    assert(v@.take(v@.len() as int) == v@);
    out
}

pub fn summary(c: &NotificationChannel) -> (r: NotificationChannelSummary)
    ensures
        summarises(r, *c),
{
    NotificationChannelSummary {
        id: c.id.clone(),
        name: c.name.clone(),
        kind: c.kind,
        enabled: c.enabled,
        events: clone_strings(&c.events),
        lang: c.lang.clone(),
        created_at_unix: c.created_at_unix,
        updated_at_unix: c.updated_at_unix,
    }
}

/// Summaries of the channels, in order.
pub fn summaries(channels: &Vec<NotificationChannel>) -> (r: Vec<NotificationChannelSummary>)
    ensures
        r@.len() == channels@.len(),
        forall|i: int| 0 <= i < r@.len() ==> summarises(#[trigger] r@[i], channels@[i]),
{
    let mut out: Vec<NotificationChannelSummary> = Vec::new();
    let mut i: usize = 0;
    while i < channels.len()
        invariant
            0 <= i <= channels@.len(),
            out@.len() == i,
            forall|j: int| 0 <= j < i ==> summarises(#[trigger] out@[j], channels@[j]),
        decreases channels@.len() - i,
    {
        out.push(summary(&channels[i]));
        i = i + 1;
    }
    out
}

/// Every `from` character replaced by `to`.
pub open spec fn replace_char(s: Seq<char>, from: char, to: char) -> Seq<char> {
    Seq::new(s.len(), |i: int| if s[i] == from { to } else { s[i] })
}

/// Name under which a delivery record is stored: the storage revision, a
/// dash, and the trimmed channel id with each `/` turned into `-`.
pub open spec fn spec_delivery_resource(revision: u64, channel_id: Seq<char>) -> Seq<char> {
    decimal(revision as nat) + "-"@ + replace_char(trim(channel_id), '/', '-')
}

/// Where the record of a delivery is appended in storage.
pub fn append_delivery(revision: u64, record: &DeliveryRecord) -> (r: String)
    ensures
        r@ == spec_delivery_resource(revision, record.channel_id@),
{
    let t = crate::text::trimmed(record.channel_id.as_str());
    let mut out = crate::text::decimal_chars(revision);
    out.push('-');
    let ghost base = out@;
    let mut i: usize = 0;
    while i < t.len()
        invariant
            0 <= i <= t@.len(),
            out@ == base + replace_char(t@, '/', '-').take(i as int),
        decreases t@.len() - i,
    {
        let c = if t[i] == '/' { '-' } else { t[i] };
        out.push(c);
        assert(replace_char(t@, '/', '-').take(i + 1) == replace_char(t@, '/', '-').take(i as int).push(c));
        i = i + 1;
    }
    assert(replace_char(t@, '/', '-').take(t@.len() as int) == replace_char(t@, '/', '-'));
    assert(base == decimal(revision as nat) + "-"@) by {
        reveal_strlit("-");
    }
    crate::text::string_of(&out)
}

} // verus!
