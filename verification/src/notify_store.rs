//! The notification configuration: channel normalization, generated
//! channel ids, the checks a configuration must pass, and the edits the API
//! makes to it.

use vstd::prelude::*;
use crate::notify::{NotificationChannel, ChannelKind};
use crate::text::{trim, lower, decimal};
use crate::probe_schedule::opt_text;
use crate::events::spec_all_kinds;
use crate::overlay::texts;

verus! {

/// The notification channels.
#[derive(Clone, Debug, PartialEq, Eq)]
pub struct NotificationConfig {
    pub channels: Vec<NotificationChannel>,
}

/// Whether a text is a JSON object, as `serde_json` reads it.
pub uninterp spec fn json_object_text(text: Seq<char>) -> bool;

/// The string member `field` of a JSON object text, as `serde_json` reads
/// it; none when the text is no JSON, no object, lacks the member or the
/// member is no string.
pub uninterp spec fn json_string_member(text: Seq<char>, field: Seq<char>) -> Option<Seq<char>>;

/// The scheme of a URL text as the `url` crate (re-exported by `reqwest`)
/// parses it; none when it does not parse.
pub uninterp spec fn url_scheme_of(text: Seq<char>) -> Option<Seq<char>>;

/// `serde_json::from_str` into a `Value`, then `Value::is_object`; a text
/// that does not parse is no object. The contract names the result.
#[verifier::external_body]
fn is_json_object(text: &str) -> (r: bool)
    ensures
        r == json_object_text(text@),
{
    match serde_json::from_str::<serde_json::Value>(text) {
        Ok(v) => v.is_object(),
        Err(_) => false,
    }
}

/// `serde_json::from_str` into a `Value`, then `Value::get` of the member
/// and `Value::as_str`. The contract names the result.
#[verifier::external_body]
fn json_string_field(text: &str, field: &str) -> (r: Option<String>)
    ensures
        opt_text(r) == json_string_member(text@, field@),
{
    match serde_json::from_str::<serde_json::Value>(text) {
        Ok(v) => v.get(field).and_then(|m| m.as_str()).map(|s| s.to_string()),
        Err(_) => None,
    }
}

/// `reqwest::Url::parse`, then `Url::scheme`. The contract names the
/// result.
#[verifier::external_body]
fn url_scheme(text: &str) -> (r: Option<String>)
    ensures
        opt_text(r) == url_scheme_of(text@),
{
    match reqwest::Url::parse(text) {
        Ok(u) => Some(u.scheme().to_string()),
        Err(_) => None,
    }
}

/// A setting a channel kind needs.
#[derive(Clone, Copy, Debug, PartialEq, Eq, Structural)]
pub enum RequiredField {
    Url,
    AccessToken,
    BotToken,
    ChatId,
    Token,
}

pub open spec fn field_name(f: RequiredField) -> Seq<char> {
    match f {
        RequiredField::Url => "url"@,
        RequiredField::AccessToken => "access_token"@,
        RequiredField::BotToken => "bot_token"@,
        RequiredField::ChatId => "chat_id"@,
        RequiredField::Token => "token"@,
    }
}

impl RequiredField {
    pub fn name(&self) -> (r: &'static str)
        ensures
            r@ == field_name(*self),
    {
        match self {
            RequiredField::Url => "url",
            RequiredField::AccessToken => "access_token",
            RequiredField::BotToken => "bot_token",
            RequiredField::ChatId => "chat_id",
            RequiredField::Token => "token",
        }
    }
}

/// Why the settings of a channel are refused.
#[derive(Clone, Debug, PartialEq, Eq)]
pub enum ChannelConfigError {
    NotObject,
    Required(RequiredField),
    InvalidUrl,
    UnsupportedScheme(String),
}

/// Why a notification configuration is refused.
#[derive(Clone, Debug, PartialEq, Eq)]
pub enum NotifyConfigError {
    MissingId(usize),
    DuplicateId(String),
    MissingName(usize),
    DuplicateName(String),
    UnknownEvent(usize, String),
    InvalidChannelConfig(usize, ChannelKind, ChannelConfigError),
}

/// What a refusal says, by value.
pub enum ConfigErrorView {
    MissingId(int),
    DuplicateId(Seq<char>),
    MissingName(int),
    DuplicateName(Seq<char>),
    UnknownEvent(int, Seq<char>),
    NotObject(int, ChannelKind),
    Required(int, ChannelKind, RequiredField),
    InvalidUrl(int, ChannelKind),
    UnsupportedScheme(int, ChannelKind, Seq<char>),
}

pub open spec fn error_view(e: NotifyConfigError) -> ConfigErrorView {
    match e {
        NotifyConfigError::MissingId(i) => ConfigErrorView::MissingId(i as int),
        NotifyConfigError::DuplicateId(id) => ConfigErrorView::DuplicateId(id@),
        NotifyConfigError::MissingName(i) => ConfigErrorView::MissingName(i as int),
        NotifyConfigError::DuplicateName(n) => ConfigErrorView::DuplicateName(n@),
        NotifyConfigError::UnknownEvent(i, ev) => ConfigErrorView::UnknownEvent(i as int, ev@),
        NotifyConfigError::InvalidChannelConfig(i, k, c) => match c {
            ChannelConfigError::NotObject => ConfigErrorView::NotObject(i as int, k),
            ChannelConfigError::Required(f) => ConfigErrorView::Required(i as int, k, f),
            ChannelConfigError::InvalidUrl => ConfigErrorView::InvalidUrl(i as int, k),
            ChannelConfigError::UnsupportedScheme(s) => ConfigErrorView::UnsupportedScheme(i as int, k, s@),
        },
    }
}

/// An ASCII letter or digit.
pub open spec fn is_ascii_alnum(c: char) -> bool {
    ('0' <= c && c <= '9') || ('a' <= c && c <= 'z') || ('A' <= c && c <= 'Z')
}

/// A character of a generated id: letters and digits in lower case,
/// anything else a dash.
pub open spec fn id_char(c: char) -> char {
    if is_ascii_alnum(c) {
        crate::text::lower_char(c)
    } else {
        '-'
    }
}

pub open spec fn strip_leading_dashes(s: Seq<char>) -> Seq<char>
    decreases s.len(),
{
    if s.len() > 0 && s[0] == '-' {
        strip_leading_dashes(s.drop_first())
    } else {
        s
    }
}

pub open spec fn strip_trailing_dashes(s: Seq<char>) -> Seq<char>
    decreases s.len(),
{
    if s.len() > 0 && s.last() == '-' {
        strip_trailing_dashes(s.drop_last())
    } else {
        s
    }
}

/// Runs of dashes reduced to one dash.
pub open spec fn collapse_dashes(s: Seq<char>) -> Seq<char>
    decreases s.len(),
{
    if s.len() == 0 {
        s
    } else {
        let r = collapse_dashes(s.drop_last());
        if s.last() == '-' && r.len() > 0 && r.last() == '-' {
            r
        } else {
            r.push(s.last())
        }
    }
}

/// The id generated for a channel name at a time: the name's letters and
/// digits in lower case, other characters as single dashes, no dash at
/// either end (`channel` when nothing is left), then a dash and the time.
pub open spec fn spec_channel_id(name: Seq<char>, now: u64) -> Seq<char> {
    let stem = collapse_dashes(strip_trailing_dashes(strip_leading_dashes(Seq::new(name.len(), |i: int| id_char(name[i])))));
    (if stem.len() == 0 {
        "channel"@
    } else {
        stem
    }) + "-"@ + decimal(now as nat)
}

proof fn lemma_strip_leading(s: Seq<char>, i: int)
    requires
        0 <= i <= s.len(),
        forall|j: int| 0 <= j < i ==> s[j] == '-',
    ensures
        strip_leading_dashes(s) == strip_leading_dashes(s.skip(i)),
    decreases i,
{
    if i > 0 {
        assert(s.skip(1) =~= s.drop_first());
        lemma_strip_leading(s.drop_first(), i - 1);
        assert(s.drop_first().skip(i - 1) =~= s.skip(i));
    } else {
        assert(s.skip(0) =~= s);
    }
}

proof fn lemma_strip_trailing(s: Seq<char>, n: int)
    requires
        0 <= n <= s.len(),
        forall|j: int| n <= j < s.len() ==> s[j] == '-',
    ensures
        strip_trailing_dashes(s) == strip_trailing_dashes(s.take(n)),
    decreases s.len() - n,
{
    if n < s.len() {
        lemma_strip_trailing(s.drop_last(), n);
        assert(s.drop_last().take(n) =~= s.take(n));
    } else {
        assert(s.take(n) =~= s);
    }
}

pub fn new_channel_id(name: &str, now: u64) -> (r: String)
    ensures
        r@ == spec_channel_id(name@, now),
{
    let cs = crate::text::chars_of(name);
    let ghost mapped = Seq::new(name@.len(), |i: int| id_char(name@[i]));
    let mut m: Vec<char> = Vec::new();
    let mut i: usize = 0;
    while i < cs.len()
        invariant
            i <= cs@.len(),
            cs@ == name@,
            mapped == Seq::new(name@.len(), |i: int| id_char(name@[i])),
            m@ == mapped.take(i as int),
        decreases cs@.len() - i,
    {
        let c = cs[i];
        let d = if ('0' <= c && c <= '9') || ('a' <= c && c <= 'z') {
            c
        } else if 'A' <= c && c <= 'Z' {
            ((c as u32) + 32) as u8 as char
        } else {
            '-'
        };
        assert(d == id_char(c)) by {
            if 'A' <= c && c <= 'Z' {
                assert((c as u32) + 32 < 256);
            }
        }
        m.push(d);
        assert(mapped.take(i + 1) =~= mapped.take(i as int).push(d));
        i = i + 1;
    }
    assert(mapped.take(i as int) =~= mapped);
    let mut a: usize = 0;
    while a < m.len() && m[a] == '-'
        invariant
            a <= m@.len(),
            forall|j: int| 0 <= j < a ==> m@[j] == '-',
        decreases m@.len() - a,
    {
        a = a + 1;
    }
    proof {
        lemma_strip_leading(m@, a as int);
    }
    let lead = crate::text::slice_chars(&m, a, m.len());
    assert(lead@ =~= m@.skip(a as int));
    assert(strip_leading_dashes(m@.skip(a as int)) == m@.skip(a as int));
    let mut b: usize = lead.len();
    while b > 0 && lead[b - 1] == '-'
        invariant
            b <= lead@.len(),
            forall|j: int| b <= j < lead@.len() ==> lead@[j] == '-',
        decreases b,
    {
        b = b - 1;
    }
    proof {
        lemma_strip_trailing(lead@, b as int);
    }
    let core = crate::text::slice_chars(&lead, 0, b);
    assert(core@ =~= lead@.take(b as int));
    assert(strip_trailing_dashes(lead@.take(b as int)) == lead@.take(b as int));
    let ghost stripped = core@;
    let mut stem: Vec<char> = Vec::new();
    let mut k: usize = 0;
    while k < core.len()
        invariant
            k <= core@.len(),
            stem@ == collapse_dashes(core@.take(k as int)),
        decreases core@.len() - k,
    {
        assert(core@.take(k + 1).drop_last() =~= core@.take(k as int));
        let c = core[k];
        if c == '-' && stem.len() > 0 && stem[stem.len() - 1] == '-' {
        } else {
            stem.push(c);
        }
        k = k + 1;
    }
    assert(core@.take(k as int) =~= core@);
    let mut out = if stem.len() == 0 {
        crate::text::chars_of("channel")
    } else {
        stem
    };
    out.push('-');
    crate::text::extend_chars(&mut out, &crate::text::decimal_chars(now));
    assert(out@ =~= spec_channel_id(name@, now)) by {
        reveal_strlit("-");
    }
    crate::text::string_of(&out)
}

/// The events of a channel trimmed, blanks dropped.
pub open spec fn norm_events(events: Seq<String>) -> Seq<Seq<char>> {
    events.map_values(|e: String| trim(e@)).filter(|t: Seq<char>| t.len() > 0)
}

/// `n` is channel `c` normalized at time `now`: name and id trimmed, a
/// generated id when it has none, events trimmed without blanks, the
/// creation time set when unset, the update time `now`.
pub open spec fn normalized_channel(n: NotificationChannel, c: NotificationChannel, now: u64) -> bool {
    &&& n.name@ == trim(c.name@)
    &&& n.id@ == (if trim(c.id@).len() == 0 {
        spec_channel_id(trim(c.name@), now)
    } else {
        trim(c.id@)
    })
    &&& texts(n.events@) == norm_events(c.events@)
    &&& n.kind == c.kind
    &&& n.enabled == c.enabled
    &&& n.lang@ == c.lang@
    &&& n.config@ == c.config@
    &&& n.created_at_unix == (if c.created_at_unix == 0 {
        now
    } else {
        c.created_at_unix
    })
    &&& n.updated_at_unix == now
}

pub fn normalize_channel(channel: &NotificationChannel, now: u64) -> (r: NotificationChannel)
    ensures
        normalized_channel(r, *channel, now),
{
    let name = crate::text::string_of(&crate::text::trimmed(channel.name.as_str()));
    let tid = crate::text::trimmed(channel.id.as_str());
    let id = if tid.len() == 0 {
        new_channel_id(name.as_str(), now)
    } else {
        crate::text::string_of(&tid)
    };
    let ghost all = channel.events@.map_values(|e: String| trim(e@));
    let mut events: Vec<String> = Vec::new();
    let mut i: usize = 0;
    while i < channel.events.len()
        invariant
            i <= channel.events@.len(),
            all == channel.events@.map_values(|e: String| trim(e@)),
            texts(events@) == all.take(i as int).filter(|t: Seq<char>| t.len() > 0),
        decreases channel.events@.len() - i,
    {
        let t = crate::text::trimmed(channel.events[i].as_str());
        proof {
            assert(all.take(i + 1).drop_last() =~= all.take(i as int));
            reveal(Seq::filter);
        }
        if t.len() > 0 {
            let ghost before = events@;
            events.push(crate::text::string_of(&t));
            assert(texts(events@) =~= texts(before).push(t@));
        }
        i = i + 1;
    }
    assert(all.take(i as int) =~= all);
    NotificationChannel {
        id,
        name,
        kind: channel.kind,
        enabled: channel.enabled,
        events,
        lang: channel.lang.clone(),
        config: channel.config.clone(),
        created_at_unix: if channel.created_at_unix == 0 {
            now
        } else {
            channel.created_at_unix
        },
        updated_at_unix: now,
    }
}

/// An event a channel may name: `*` or a known event kind.
pub open spec fn known_event(e: Seq<char>) -> bool {
    e == "*"@ || spec_all_kinds().contains(e)
}

/// The first event of a list that is not known, trimmed.
pub open spec fn first_unknown_event(events: Seq<String>) -> Option<Seq<char>>
    decreases events.len(),
{
    if events.len() == 0 {
        None
    } else {
        match first_unknown_event(events.drop_last()) {
            Some(e) => Some(e),
            None => if known_event(trim(events.last()@)) {
                None
            } else {
                Some(trim(events.last()@))
            },
        }
    }
}

/// A setting of a channel: its string member, trimmed, when not blank.
pub open spec fn required_value(config: Seq<char>, f: RequiredField) -> Option<Seq<char>> {
    match json_string_member(config, field_name(f)) {
        Some(v) => if trim(v).len() > 0 {
            Some(trim(v))
        } else {
            None
        },
        None => None,
    }
}

/// What is wrong with the settings of channel `idx`, if anything: they
/// must be a JSON object with the settings its kind needs; a URL must parse
/// with scheme `http` or `https`.
pub open spec fn channel_config_error(c: NotificationChannel, idx: int) -> Option<ConfigErrorView> {
    let cfg = c.config@;
    if !json_object_text(cfg) {
        Some(ConfigErrorView::NotObject(idx, c.kind))
    } else {
        match c.kind {
            ChannelKind::Dingtalk => if required_value(cfg, RequiredField::AccessToken) is None {
                Some(ConfigErrorView::Required(idx, c.kind, RequiredField::AccessToken))
            } else {
                None
            },
            ChannelKind::Telegram => if required_value(cfg, RequiredField::BotToken) is None {
                Some(ConfigErrorView::Required(idx, c.kind, RequiredField::BotToken))
            } else if required_value(cfg, RequiredField::ChatId) is None {
                Some(ConfigErrorView::Required(idx, c.kind, RequiredField::ChatId))
            } else {
                None
            },
            ChannelKind::Pushplus => if required_value(cfg, RequiredField::Token) is None {
                Some(ConfigErrorView::Required(idx, c.kind, RequiredField::Token))
            } else {
                None
            },
            _ => match required_value(cfg, RequiredField::Url) {
                None => Some(ConfigErrorView::Required(idx, c.kind, RequiredField::Url)),
                Some(u) => match url_scheme_of(u) {
                    None => Some(ConfigErrorView::InvalidUrl(idx, c.kind)),
                    Some(sch) => if sch == "http"@ || sch == "https"@ {
                        None
                    } else {
                        Some(ConfigErrorView::UnsupportedScheme(idx, c.kind, sch))
                    },
                },
            },
        }
    }
}

/// What is wrong with channel `idx` after the channels `prev` passed.
pub open spec fn channel_error(prev: Seq<NotificationChannel>, c: NotificationChannel, idx: int) -> Option<ConfigErrorView> {
    if trim(c.id@).len() == 0 {
        Some(ConfigErrorView::MissingId(idx))
    } else if exists|j: int| 0 <= j < prev.len() && trim((#[trigger] prev[j]).id@) == trim(c.id@) {
        Some(ConfigErrorView::DuplicateId(c.id@))
    } else if trim(c.name@).len() == 0 {
        Some(ConfigErrorView::MissingName(idx))
    } else if exists|j: int| 0 <= j < prev.len() && trim((#[trigger] prev[j]).name@) == trim(c.name@) {
        Some(ConfigErrorView::DuplicateName(c.name@))
    } else {
        match first_unknown_event(c.events@) {
            Some(e) => Some(ConfigErrorView::UnknownEvent(idx, e)),
            None => channel_config_error(c, idx),
        }
    }
}

/// The first thing wrong with a configuration, channel by channel.
pub open spec fn config_error(chs: Seq<NotificationChannel>) -> Option<ConfigErrorView>
    decreases chs.len(),
{
    if chs.len() == 0 {
        None
    } else {
        match config_error(chs.drop_last()) {
            Some(e) => Some(e),
            None => channel_error(chs.drop_last(), chs.last(), chs.len() - 1),
        }
    }
}

fn is_known_event(e: &Vec<char>) -> (r: bool)
    ensures
        r == known_event(e@),
{
    if crate::text::chars_eq(e, &crate::text::chars_of("*")) {
        return true;
    }
    let kinds = crate::events::all_kinds();
    let mut i: usize = 0;
    while i < kinds.len()
        invariant
            i <= 14,
            kinds@.len() == 14,
            forall|k: int| 0 <= k < 14 ==> (#[trigger] kinds@[k])@ == spec_all_kinds()[k],
            forall|k: int| 0 <= k < i ==> spec_all_kinds()[k] != e@,
            e@ != "*"@,
        decreases 14 - i,
    {
        if crate::text::chars_eq(e, &crate::text::chars_of(kinds[i])) {
            assert(spec_all_kinds()[i as int] == e@);
            return true;
        }
        i = i + 1;
    }
    proof {
        if spec_all_kinds().contains(e@) {
            let k = choose|k: int| 0 <= k < spec_all_kinds().len() && spec_all_kinds()[k] == e@;
            assert(spec_all_kinds().len() == 14);
        }
    }
    false
}

fn unknown_event(events: &Vec<String>) -> (r: Option<String>)
    ensures
        opt_text(r) == first_unknown_event(events@),
{
    let mut i: usize = 0;
    while i < events.len()
        invariant
            i <= events@.len(),
            first_unknown_event(events@.take(i as int)) is None,
        decreases events@.len() - i,
    {
        assert(events@.take(i + 1).drop_last() =~= events@.take(i as int));
        let t = crate::text::trimmed(events[i].as_str());
        if !is_known_event(&t) {
            proof {
                lemma_first_unknown_prefix(events@, i as int + 1);
            }
            return Some(crate::text::string_of(&t));
        }
        i = i + 1;
    }
    assert(events@.take(i as int) =~= events@);
    None
}

proof fn lemma_first_unknown_prefix(events: Seq<String>, n: int)
    requires
        0 <= n <= events.len(),
        first_unknown_event(events.take(n)) is Some,
    ensures
        first_unknown_event(events) == first_unknown_event(events.take(n)),
    decreases events.len() - n,
{
    if n < events.len() {
        assert(events.take(n + 1).drop_last() =~= events.take(n));
        lemma_first_unknown_prefix(events, n + 1);
    } else {
        assert(events.take(n) =~= events);
    }
}

fn required(config: &str, f: RequiredField) -> (r: Option<Vec<char>>)
    ensures
        match r {
            Some(v) => required_value(config@, f) == Some(v@),
            None => required_value(config@, f) is None,
        },
{
    match json_string_field(config, f.name()) {
        None => None,
        Some(v) => {
            let t = crate::text::trimmed(v.as_str());
            if t.len() > 0 {
                Some(t)
            } else {
                None
            }
        },
    }
}

fn check_channel_config(c: &NotificationChannel, idx: usize) -> (r: Option<NotifyConfigError>)
    ensures
        match r {
            Some(e) => channel_config_error(*c, idx as int) == Some(error_view(e)),
            None => channel_config_error(*c, idx as int) is None,
        },
{
    let cfg = c.config.as_str();
    if !is_json_object(cfg) {
        return Some(NotifyConfigError::InvalidChannelConfig(idx, c.kind, ChannelConfigError::NotObject));
    }
    match c.kind {
        ChannelKind::Dingtalk => match required(cfg, RequiredField::AccessToken) {
            None => Some(NotifyConfigError::InvalidChannelConfig(idx, c.kind, ChannelConfigError::Required(RequiredField::AccessToken))),
            Some(_) => None,
        },
        ChannelKind::Telegram => match required(cfg, RequiredField::BotToken) {
            None => Some(NotifyConfigError::InvalidChannelConfig(idx, c.kind, ChannelConfigError::Required(RequiredField::BotToken))),
            Some(_) => match required(cfg, RequiredField::ChatId) {
                None => Some(NotifyConfigError::InvalidChannelConfig(idx, c.kind, ChannelConfigError::Required(RequiredField::ChatId))),
                Some(_) => None,
            },
        },
        ChannelKind::Pushplus => match required(cfg, RequiredField::Token) {
            None => Some(NotifyConfigError::InvalidChannelConfig(idx, c.kind, ChannelConfigError::Required(RequiredField::Token))),
            Some(_) => None,
        },
        _ => match required(cfg, RequiredField::Url) {
            None => Some(NotifyConfigError::InvalidChannelConfig(idx, c.kind, ChannelConfigError::Required(RequiredField::Url))),
            Some(u) => {
                let us = crate::text::string_of(&u);
                match url_scheme(us.as_str()) {
                    None => Some(NotifyConfigError::InvalidChannelConfig(idx, c.kind, ChannelConfigError::InvalidUrl)),
                    Some(sch) => {
                        let sc = crate::text::chars_of(sch.as_str());
                        if crate::text::chars_eq(&sc, &crate::text::chars_of("http")) || crate::text::chars_eq(&sc, &crate::text::chars_of("https")) {
                            None
                        } else {
                            Some(NotifyConfigError::InvalidChannelConfig(idx, c.kind, ChannelConfigError::UnsupportedScheme(sch)))
                        }
                    },
                }
            },
        },
    }
}

fn seen_before(seen: &Vec<Vec<char>>, t: &Vec<char>) -> (r: bool)
    ensures
        r == exists|j: int| 0 <= j < seen@.len() && (#[trigger] seen@[j])@ == t@,
{
    let mut i: usize = 0;
    while i < seen.len()
        invariant
            i <= seen@.len(),
            forall|j: int| 0 <= j < i ==> (#[trigger] seen@[j])@ != t@,
        decreases seen@.len() - i,
    {
        if crate::text::chars_eq(&seen[i], t) {
            return true;
        }
        i = i + 1;
    }
    false
}

/// Check a notification configuration; the first thing wrong with it, in
/// channel order.
pub fn validate_config(config: &NotificationConfig) -> (r: Result<(), NotifyConfigError>)
    ensures
        r is Ok <==> config_error(config.channels@) is None,
        r matches Err(e) ==> config_error(config.channels@) == Some(error_view(e)),
{
    let chs = &config.channels;
    let mut ids: Vec<Vec<char>> = Vec::new();
    let mut names: Vec<Vec<char>> = Vec::new();
    let mut i: usize = 0;
    while i < chs.len()
        invariant
            i <= chs@.len(),
            config_error(chs@.take(i as int)) is None,
            chs@ == config.channels@,
            ids@.len() == i,
            names@.len() == i,
            forall|j: int| 0 <= j < i ==> (#[trigger] ids@[j])@ == trim(chs@[j].id@),
            forall|j: int| 0 <= j < i ==> (#[trigger] names@[j])@ == trim(chs@[j].name@),
        decreases chs@.len() - i,
    {
        let c = &chs[i];
        let ghost prev = chs@.take(i as int);
        assert(chs@.take(i + 1).drop_last() =~= prev);
        assert(chs@.take(i + 1).last() == *c);
        let ghost found_step = channel_error(prev, *c, i as int);
        let tid = crate::text::trimmed(c.id.as_str());
        let tname = crate::text::trimmed(c.name.as_str());
        let err: Option<NotifyConfigError> = if tid.len() == 0 {
            Some(NotifyConfigError::MissingId(i))
        } else if seen_before(&ids, &tid) {
            proof {
                let j = choose|j: int| 0 <= j < ids@.len() && (#[trigger] ids@[j])@ == tid@;
                assert(trim(prev[j].id@) == trim(c.id@));
            }
            Some(NotifyConfigError::DuplicateId(c.id.clone()))
        } else if tname.len() == 0 {
            proof {
                assert(!exists|j: int| 0 <= j < prev.len() && trim((#[trigger] prev[j]).id@) == trim(c.id@)) by {
                    if exists|j: int| 0 <= j < prev.len() && trim((#[trigger] prev[j]).id@) == trim(c.id@) {
                        let j = choose|j: int| 0 <= j < prev.len() && trim((#[trigger] prev[j]).id@) == trim(c.id@);
                        assert(ids@[j]@ == tid@);
                    }
                }
            }
            Some(NotifyConfigError::MissingName(i))
        } else if seen_before(&names, &tname) {
            proof {
                assert(!exists|j: int| 0 <= j < prev.len() && trim((#[trigger] prev[j]).id@) == trim(c.id@)) by {
                    if exists|j: int| 0 <= j < prev.len() && trim((#[trigger] prev[j]).id@) == trim(c.id@) {
                        let j = choose|j: int| 0 <= j < prev.len() && trim((#[trigger] prev[j]).id@) == trim(c.id@);
                        assert(ids@[j]@ == tid@);
                    }
                }
                let j = choose|j: int| 0 <= j < names@.len() && (#[trigger] names@[j])@ == tname@;
                assert(trim(prev[j].name@) == trim(c.name@));
            }
            Some(NotifyConfigError::DuplicateName(c.name.clone()))
        } else {
            proof {
                assert(!exists|j: int| 0 <= j < prev.len() && trim((#[trigger] prev[j]).id@) == trim(c.id@)) by {
                    if exists|j: int| 0 <= j < prev.len() && trim((#[trigger] prev[j]).id@) == trim(c.id@) {
                        let j = choose|j: int| 0 <= j < prev.len() && trim((#[trigger] prev[j]).id@) == trim(c.id@);
                        assert(ids@[j]@ == tid@);
                    }
                }
                assert(!exists|j: int| 0 <= j < prev.len() && trim((#[trigger] prev[j]).name@) == trim(c.name@)) by {
                    if exists|j: int| 0 <= j < prev.len() && trim((#[trigger] prev[j]).name@) == trim(c.name@) {
                        let j = choose|j: int| 0 <= j < prev.len() && trim((#[trigger] prev[j]).name@) == trim(c.name@);
                        assert(names@[j]@ == tname@);
                    }
                }
            }
            match unknown_event(&c.events) {
                Some(e) => Some(NotifyConfigError::UnknownEvent(i, e)),
                None => check_channel_config(c, i),
            }
        };
        match err {
            Some(e) => {
                assert(channel_error(prev, *c, i as int) == Some(error_view(e)));
                assert(config_error(chs@.take(i + 1)) == Some(error_view(e)));
                proof {
                    lemma_config_error_prefix(chs@, i as int + 1);
                }
                assert(config_error(chs@) == Some(error_view(e)));
                return Err(e);
            },
            None => {},
        }
        ids.push(tid);
        names.push(tname);
        i = i + 1;
    }
    assert(chs@.take(i as int) =~= chs@);
    Ok(())
}

proof fn lemma_config_error_prefix(chs: Seq<NotificationChannel>, n: int)
    requires
        0 <= n <= chs.len(),
        config_error(chs.take(n)) is Some,
    ensures
        config_error(chs) == config_error(chs.take(n)),
    decreases chs.len() - n,
{
    if n < chs.len() {
        assert(chs.take(n + 1).drop_last() =~= chs.take(n));
        lemma_config_error_prefix(chs, n + 1);
    } else {
        assert(chs.take(n) =~= chs);
    }
}

/// Normalize every channel at time `now`, then check the result.
pub fn normalize_config(config: NotificationConfig, now: u64) -> (r: Result<NotificationConfig, NotifyConfigError>)
    ensures
        match r {
            Ok(c) => {
                &&& c.channels@.len() == config.channels@.len()
                &&& forall|i: int| 0 <= i < c.channels@.len() ==> normalized_channel(#[trigger] c.channels@[i], config.channels@[i], now)
                &&& config_error(c.channels@) is None
            },
            Err(e) => exists|ns: Seq<NotificationChannel>| {
                &&& ns.len() == config.channels@.len()
                &&& forall|i: int| 0 <= i < ns.len() ==> normalized_channel(#[trigger] ns[i], config.channels@[i], now)
                &&& config_error(ns) == Some(error_view(e))
            },
        },
{
    let mut out: Vec<NotificationChannel> = Vec::new();
    let mut i: usize = 0;
    while i < config.channels.len()
        invariant
            i <= config.channels@.len(),
            out@.len() == i,
            forall|j: int| 0 <= j < i ==> normalized_channel(#[trigger] out@[j], config.channels@[j], now),
        decreases config.channels@.len() - i,
    {
        out.push(normalize_channel(&config.channels[i], now));
        i = i + 1;
    }
    let c = NotificationConfig { channels: out };
    match validate_config(&c) {
        Ok(()) => Ok(c),
        Err(e) => Err(e),
    }
}

/// Everything a channel holds, by value.
pub open spec fn channel_view(c: NotificationChannel) -> (Seq<char>, Seq<char>, ChannelKind, bool, Seq<Seq<char>>, Seq<char>, Seq<char>, u64, u64) {
    (c.id@, c.name@, c.kind, c.enabled, texts(c.events@), c.lang@, c.config@, c.created_at_unix, c.updated_at_unix)
}

pub open spec fn channel_views(s: Seq<NotificationChannel>) -> Seq<(Seq<char>, Seq<char>, ChannelKind, bool, Seq<Seq<char>>, Seq<char>, Seq<char>, u64, u64)> {
    s.map_values(|c: NotificationChannel| channel_view(c))
}

/// `stored` is `channel` normalized at `now` and put into the channels
/// `chs` as `after`: in place of the first channel of its id, keeping that
/// channel's creation time, or appended.
pub open spec fn upserted_channel(chs: Seq<NotificationChannel>, channel: NotificationChannel, now: u64, stored: NotificationChannel, after: Seq<NotificationChannel>) -> bool {
    &&& normalized_channel(
        NotificationChannel { created_at_unix: (if channel.created_at_unix == 0 { now } else { channel.created_at_unix }), ..stored },
        channel,
        now,
    )
    &&& match first_id(chs, stored.id@, 0) {
        Some(k) => stored.created_at_unix == chs[k].created_at_unix && channel_views(after) == channel_views(chs).update(k, channel_view(stored)),
        None => stored.created_at_unix == (if channel.created_at_unix == 0 {
            now
        } else {
            channel.created_at_unix
        }) && channel_views(after) == channel_views(chs).push(channel_view(stored)),
    }
}

/// Add a channel normalized at time `now`, or replace the channel of its
/// id keeping that channel's creation time; then check the result. The
/// stored channel is returned beside the configuration.
pub fn upsert_channel_in_config(config: NotificationConfig, channel: NotificationChannel, now: u64) -> (r: Result<(NotificationConfig, NotificationChannel), NotifyConfigError>)
    ensures
        match r {
            Ok((c, stored)) => upserted_channel(config.channels@, channel, now, stored, c.channels@) && config_error(c.channels@) is None,
            Err(e) => exists|stored: NotificationChannel, after: Seq<NotificationChannel>|
                upserted_channel(config.channels@, channel, now, stored, after) && config_error(after) == Some(error_view(e)),
        },
{
    let n = normalize_channel(&channel, now);
    let mut chs = config.channels;
    let ghost old_chs = chs@;
    let stored = match find_id(&chs, n.id.as_str()) {
        Some(k) => {
            let s = NotificationChannel { created_at_unix: chs[k].created_at_unix, ..n };
            let copy = s.copy_of();
            chs.set(k, copy);
            assert(channel_views(chs@) =~= channel_views(old_chs).update(k as int, channel_view(s)));
            s
        },
        None => {
            let s = n.copy_of();
            chs.push(n);
            assert(channel_views(chs@) =~= channel_views(old_chs).push(channel_view(s)));
            s
        },
    };
    let c = NotificationConfig { channels: chs };
    assert(upserted_channel(old_chs, channel, now, stored, c.channels@));
    match validate_config(&c) {
        Ok(()) => Ok((c, stored)),
        Err(e) => Err(e),
    }
}

/// The first channel of an id.
pub open spec fn first_id(chs: Seq<NotificationChannel>, id: Seq<char>, from: int) -> Option<int>
    decreases chs.len() - from,
{
    if from < 0 || from >= chs.len() {
        None
    } else if chs[from].id@ == id {
        Some(from)
    } else {
        first_id(chs, id, from + 1)
    }
}

fn find_id(chs: &Vec<NotificationChannel>, id: &str) -> (r: Option<usize>)
    ensures
        r matches Some(k) ==> k < chs@.len() && first_id(chs@, id@, 0) == Some(k as int),
        r is None ==> first_id(chs@, id@, 0) is None,
{
    let mut i: usize = 0;
    while i < chs.len()
        invariant
            i <= chs@.len(),
            first_id(chs@, id@, 0) == first_id(chs@, id@, i as int),
        decreases chs@.len() - i,
    {
        if crate::registry::same_name(chs[i].id.as_str(), id) {
            return Some(i);
        }
        i = i + 1;
    }
    None
}

impl NotificationChannel {
    /// A copy holding what the channel holds.
    pub fn copy_of(&self) -> (r: NotificationChannel)
        ensures
            channel_view(r) == channel_view(*self),
    {
        let mut events: Vec<String> = Vec::new();
        let mut i: usize = 0;
        while i < self.events.len()
            invariant
                i <= self.events@.len(),
                events@ == self.events@.take(i as int),
            decreases self.events@.len() - i,
        {
            events.push(self.events[i].clone());
            assert(self.events@.take(i + 1) =~= self.events@.take(i as int).push(self.events@[i as int]));
            i = i + 1;
        }
        assert(self.events@.take(i as int) =~= self.events@);
        NotificationChannel {
            id: self.id.clone(),
            name: self.name.clone(),
            kind: self.kind,
            enabled: self.enabled,
            events,
            lang: self.lang.clone(),
            config: self.config.clone(),
            created_at_unix: self.created_at_unix,
            updated_at_unix: self.updated_at_unix,
        }
    }
}

/// Remove the channels of an id; whether any was removed.
pub fn delete_channel_in_config(config: NotificationConfig, id: &str) -> (r: (NotificationConfig, bool))
    ensures
        r.0.channels@ == config.channels@.filter(|c: NotificationChannel| c.id@ != id@),
        r.1 == (r.0.channels@.len() != config.channels@.len()),
{
    let mut chs = config.channels;
    let ghost all = chs@;
    let before = chs.len();
    let mut reversed: Vec<NotificationChannel> = Vec::new();
    while chs.len() > 0
        invariant
            reversed@.len() + chs@.len() == all.len(),
            chs@ == all.take(chs@.len() as int),
            forall|j: int| 0 <= j < reversed@.len() ==> #[trigger] reversed@[j] == all[all.len() - 1 - j],
        decreases chs@.len(),
    {
        let t = chs.pop().unwrap();
        reversed.push(t);
        assert(chs@ =~= all.take(chs@.len() as int));
    }
    let mut kept: Vec<NotificationChannel> = Vec::new();
    let ghost mut done: int = 0;
    while reversed.len() > 0
        invariant
            reversed@.len() + done == all.len(),
            0 <= done <= all.len(),
            forall|j: int| 0 <= j < reversed@.len() ==> #[trigger] reversed@[j] == all[all.len() - 1 - j],
            kept@ == all.take(done).filter(|c: NotificationChannel| c.id@ != id@),
        decreases reversed@.len(),
    {
        let t = reversed.pop().unwrap();
        assert(t == all[done]);
        proof {
            assert(all.take(done + 1).drop_last() =~= all.take(done));
            reveal(Seq::filter);
        }
        if !crate::registry::same_name(t.id.as_str(), id) {
            kept.push(t);
        }
        proof {
            done = done + 1;
        }
    }
    assert(all.take(all.len() as int) =~= all);
    let changed = kept.len() != before;
    (NotificationConfig { channels: kept }, changed)
}

fn push_text(out: &mut Vec<char>, s: &str)
    ensures
        final(out)@ == old(out)@ + s@,
{
    crate::text::extend_chars(out, &crate::text::chars_of(s));
}

/// The name of a channel kind as the messages show it.
pub open spec fn kind_text(k: ChannelKind) -> Seq<char> {
    match k {
        ChannelKind::Webhook => "Webhook"@,
        ChannelKind::Dingtalk => "Dingtalk"@,
        ChannelKind::Feishu => "Feishu"@,
        ChannelKind::Wecom => "Wecom"@,
        ChannelKind::Telegram => "Telegram"@,
        ChannelKind::Slack => "Slack"@,
        ChannelKind::Pushplus => "Pushplus"@,
        ChannelKind::Lanxin => "Lanxin"@,
    }
}

/// What a refusal of channel settings says.
pub open spec fn channel_config_message(e: ChannelConfigError) -> Seq<char> {
    match e {
        ChannelConfigError::NotObject => "config must be a JSON object"@,
        ChannelConfigError::Required(f) => field_name(f) + " is required"@,
        ChannelConfigError::InvalidUrl => "url is invalid"@,
        ChannelConfigError::UnsupportedScheme(sch) => "url scheme \""@ + sch@ + "\" is not supported"@,
    }
}

/// What a refusal of a notification configuration says.
pub open spec fn notify_config_message(e: NotifyConfigError) -> Seq<char> {
    match e {
        NotifyConfigError::MissingId(i) => "notification channels["@ + decimal(i as nat) + "].id is required"@,
        NotifyConfigError::DuplicateId(id) => "duplicate notification channel id \""@ + id@ + "\""@,
        NotifyConfigError::MissingName(i) => "notification channels["@ + decimal(i as nat) + "].name is required"@,
        NotifyConfigError::DuplicateName(n) => "duplicate notification channel name \""@ + n@ + "\""@,
        NotifyConfigError::UnknownEvent(i, ev) => "notification channels["@ + decimal(i as nat) + "].events contains unknown event \""@
            + ev@ + "\""@,
        NotifyConfigError::InvalidChannelConfig(i, k, c) => "invalid notification channels["@ + decimal(i as nat) + "] "@ + kind_text(k)
            + " config: "@ + channel_config_message(c),
    }
}

fn kind_name(k: ChannelKind) -> (r: &'static str)
    ensures
        r@ == kind_text(k),
{
    match k {
        ChannelKind::Webhook => "Webhook",
        ChannelKind::Dingtalk => "Dingtalk",
        ChannelKind::Feishu => "Feishu",
        ChannelKind::Wecom => "Wecom",
        ChannelKind::Telegram => "Telegram",
        ChannelKind::Slack => "Slack",
        ChannelKind::Pushplus => "Pushplus",
        ChannelKind::Lanxin => "Lanxin",
    }
}

impl ChannelConfigError {
    pub fn message(&self) -> (r: String)
        ensures
            r@ == channel_config_message(*self),
    {
        let mut out: Vec<char> = Vec::new();
        match self {
            ChannelConfigError::NotObject => push_text(&mut out, "config must be a JSON object"),
            ChannelConfigError::Required(f) => {
                push_text(&mut out, f.name());
                push_text(&mut out, " is required");
            },
            ChannelConfigError::InvalidUrl => push_text(&mut out, "url is invalid"),
            ChannelConfigError::UnsupportedScheme(sch) => {
                push_text(&mut out, "url scheme \"");
                push_text(&mut out, sch.as_str());
                push_text(&mut out, "\" is not supported");
            },
        }
        crate::text::string_of(&out)
    }
}

impl NotifyConfigError {
    pub fn message(&self) -> (r: String)
        ensures
            r@ == notify_config_message(*self),
    {
        let mut out: Vec<char> = Vec::new();
        match self {
            NotifyConfigError::MissingId(i) => {
                push_text(&mut out, "notification channels[");
                crate::text::extend_chars(&mut out, &crate::text::decimal_chars(*i as u64));
                push_text(&mut out, "].id is required");
            },
            NotifyConfigError::DuplicateId(id) => {
                push_text(&mut out, "duplicate notification channel id \"");
                push_text(&mut out, id.as_str());
                push_text(&mut out, "\"");
            },
            NotifyConfigError::MissingName(i) => {
                push_text(&mut out, "notification channels[");
                crate::text::extend_chars(&mut out, &crate::text::decimal_chars(*i as u64));
                push_text(&mut out, "].name is required");
            },
            NotifyConfigError::DuplicateName(n) => {
                push_text(&mut out, "duplicate notification channel name \"");
                push_text(&mut out, n.as_str());
                push_text(&mut out, "\"");
            },
            NotifyConfigError::UnknownEvent(i, e) => {
                push_text(&mut out, "notification channels[");
                crate::text::extend_chars(&mut out, &crate::text::decimal_chars(*i as u64));
                push_text(&mut out, "].events contains unknown event \"");
                push_text(&mut out, e.as_str());
                push_text(&mut out, "\"");
            },
            NotifyConfigError::InvalidChannelConfig(i, k, c) => {
                push_text(&mut out, "invalid notification channels[");
                crate::text::extend_chars(&mut out, &crate::text::decimal_chars(*i as u64));
                push_text(&mut out, "] ");
                push_text(&mut out, kind_name(*k));
                push_text(&mut out, " config: ");
                push_text(&mut out, c.message().as_str());
            },
        }
        crate::text::string_of(&out)
    }
}

} // verus!
