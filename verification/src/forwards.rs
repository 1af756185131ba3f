//! Port forwards of a profile and the rules for the fields that describe them.

use vstd::prelude::*;
use vstd::string::*;

use crate::forward::{ForwardState, ForwardStateView, ForwardStatus, ForwardStatusView};
use crate::forward_manager::status_views;
use crate::ids::{is_id, random_id};
use crate::text::{
    contains, decimal, occurs, opt_string, pair_views, parse_u16, push_decimal, same_text, trim,
    trimmed, u16_of_text,
};

verus! {

/// One local port that is forwarded to a host and port on the server's side.
#[derive(Debug, PartialEq, Eq)]
pub struct PortForward {
    pub id: String,
    pub label: String,
    pub local_port: u16,
    pub remote_host: String,
    pub remote_port: u16,
    /// Whether the forward should run; not persisted.
    pub enabled: bool,
}

/// What a [`PortForward`] holds.
#[verifier::ext_equal]
pub struct PortForwardView {
    pub id: Seq<char>,
    pub label: Seq<char>,
    pub local_port: u16,
    pub remote_host: Seq<char>,
    pub remote_port: u16,
    pub enabled: bool,
}

impl View for PortForward {
    type V = PortForwardView;

    open spec fn view(&self) -> PortForwardView {
        PortForwardView {
            id: self.id@,
            label: self.label@,
            local_port: self.local_port,
            remote_host: self.remote_host@,
            remote_port: self.remote_port,
            enabled: self.enabled,
        }
    }
}

impl Clone for PortForward {
    fn clone(&self) -> (r: Self)
        ensures
            r@ == self@,
    {
        PortForward {
            id: self.id.clone(),
            label: self.label.clone(),
            local_port: self.local_port,
            remote_host: self.remote_host.clone(),
            remote_port: self.remote_port,
            enabled: self.enabled,
        }
    }
}

/// What a list of forwards holds.
pub open spec fn forward_views(s: Seq<PortForward>) -> Seq<PortForwardView> {
    s.map_values(|f: PortForward| f@)
}

/// A copy of a list of forwards.
pub fn clone_forwards(v: &Vec<PortForward>) -> (r: Vec<PortForward>)
    ensures
        forward_views(r@) == forward_views(v@),
{
    let mut out: Vec<PortForward> = Vec::new();
    let mut i: usize = 0;
    while i < v.len()
        invariant
            i <= v.len(),
            forward_views(out@) == forward_views(v@).take(i as int),
        decreases v.len() - i,
    {
        let ghost before = out@;
        out.push(v[i].clone());
        assert(forward_views(out@) == forward_views(before).push(v@[i as int]@));
        i += 1;
    }
    assert(forward_views(v@).take(v.len() as int) == forward_views(v@));
    out
}

impl PortForwardView {
    /// The label, or the target where the label is empty.
    pub open spec fn display_name(self) -> Seq<char> {
        if self.label.len() > 0 {
            self.label
        } else {
            self.remote_host + ":"@ + decimal(self.remote_port as nat)
        }
    }
}

impl PortForward {
    /// A random identifier for a new forward.
    pub fn new_id() -> (r: String)
        ensures
            is_id(r@),
    {
        random_id()
    }

    /// How the forward is called in messages: its label, or its target where it has none.
    pub fn display_name(&self) -> (r: String)
        ensures
            r@ == self@.display_name(),
    {
        if !self.label.as_str().is_empty() {
            return self.label.clone();
        }
        let mut out = self.remote_host.clone();
        out.append(":");
        push_decimal(&mut out, self.remote_port as u128);
        out
    }
}

/// The outcome of checking a field: the value, or the message that says what is wrong with it.
pub type Checked<T> = Result<T, String>;

/// The view of a checked text.
pub open spec fn checked_text(r: Checked<String>) -> Result<Seq<char>, Seq<char>> {
    match r {
        Ok(s) => Ok(s@),
        Err(e) => Err(e@),
    }
}

/// The view of a checked number.
pub open spec fn checked_number(r: Checked<u16>) -> Result<u16, Seq<char>> {
    match r {
        Ok(n) => Ok(n),
        Err(e) => Err(e@),
    }
}

/// The port that a form field holds: a decimal number from 1 to 65535, with white space around it
/// ignored.
pub open spec fn port_field(text: Seq<char>, field: Seq<char>) -> Result<u16, Seq<char>> {
    match u16_of_text(trimmed(text)) {
        Some(port) if port != 0 => Ok(port),
        _ => Err(field + " must be a number from 1 to 65535"@),
    }
}

/// Reads the port that a form field holds; `field` names it in the message.
pub fn parse_port(text: &str, field: &str) -> (r: Checked<u16>)
    ensures
        checked_number(r) == port_field(text@, field@),
{
    match parse_u16(trim(text).as_str()) {
        Some(port) if port != 0 => Ok(port),
        _ => {
            let mut message = String::from_str(field);
            message.append(" must be a number from 1 to 65535");
            Err(message)
        },
    }
}

/// The label that a form field holds: at most 64 characters, with white space around it ignored.
pub open spec fn label_field(text: Seq<char>) -> Result<Seq<char>, Seq<char>> {
    if trimmed(text).len() <= 64 {
        Ok(trimmed(text))
    } else {
        Err("Label must be 64 characters or fewer"@)
    }
}

/// Reads the label that a form field holds.
pub fn validate_label(text: &str) -> (r: Checked<String>)
    ensures
        checked_text(r) == label_field(text@),
{
    let label = trim(text);
    if label.as_str().unicode_len() <= 64 {
        Ok(label)
    } else {
        Err(String::from_str("Label must be 64 characters or fewer"))
    }
}

/// Whether a host has no empty label before one of its dots.
pub open spec fn has_no_empty_label(host: Seq<char>) -> bool {
    host.len() > 0 && host[0] != '.' && !occurs(".."@, host)
}

/// The host that a form field holds: not blank and without an empty label, with white space
/// around it ignored.
pub open spec fn host_field(text: Seq<char>) -> Result<Seq<char>, Seq<char>> {
    let host = trimmed(text);
    if host.len() == 0 {
        Err("Remote host is required"@)
    } else if !has_no_empty_label(host) {
        Err("Remote host is not a valid host name or address"@)
    } else {
        Ok(host)
    }
}

/// Reads the remote host that a form field holds.
pub fn validate_remote_host(text: &str) -> (r: Checked<String>)
    ensures
        checked_text(r) == host_field(text@),
{
    let host = trim(text);
    if host.as_str().is_empty() {
        return Err(String::from_str("Remote host is required"));
    }
    let bad = host.as_str().get_char(0) == '.' || contains(host.as_str(), "..");
    if bad {
        Err(String::from_str("Remote host is not a valid host name or address"))
    } else {
        Ok(host)
    }
}

/// Why the setup of the forward with the given id failed, if it did.
pub open spec fn failure_of(statuses: Seq<ForwardStatusView>, id: Seq<char>) -> Option<Seq<char>>
    decreases statuses.len(),
{
    if statuses.len() == 0 {
        None
    } else if statuses[0].id == id {
        match statuses[0].state {
            ForwardStateView::Failed(reason) => Some(reason),
            _ => None,
        }
    } else {
        failure_of(statuses.drop_first(), id)
    }
}

/// Whether a forward is switched on although its setup failed.
pub open spec fn has_failed(f: PortForwardView, statuses: Seq<ForwardStatusView>) -> bool {
    f.enabled && failure_of(statuses, f.id) is Some
}

/// The forwards with those that failed switched off.
pub open spec fn failed_off(forwards: Seq<PortForwardView>, statuses: Seq<ForwardStatusView>) -> Seq<
    PortForwardView,
> {
    forwards.map_values(
        |f: PortForwardView|
            PortForwardView { enabled: f.enabled && !has_failed(f, statuses), ..f },
    )
}

/// The forwards that failed, each with the reason, in their order.
pub open spec fn failures(forwards: Seq<PortForwardView>, statuses: Seq<ForwardStatusView>) -> Seq<
    (Seq<char>, Seq<char>),
>
    decreases forwards.len(),
{
    if forwards.len() == 0 {
        Seq::empty()
    } else {
        let before = failures(forwards.drop_last(), statuses);
        let f = forwards.last();
        if has_failed(f, statuses) {
            before.push((f.id, failure_of(statuses, f.id)->0))
        } else {
            before
        }
    }
}

fn find_failure(statuses: &[ForwardStatus], id: &str) -> (r: Option<String>)
    ensures
        opt_string(r) == failure_of(status_views(statuses@), id@),
{
    let ghost all = status_views(statuses@);
    assert(all.skip(0) == all);
    let mut i: usize = 0;
    while i < statuses.len()
        invariant
            i <= statuses.len(),
            all == status_views(statuses@),
            failure_of(all, id@) == failure_of(all.skip(i as int), id@),
        decreases statuses.len() - i,
    {
        assert(all.skip(i as int)[0] == statuses@[i as int]@);
        if same_text(statuses[i].id.as_str(), id) {
            return match &statuses[i].state {
                ForwardState::Failed(reason) => Some(reason.clone()),
                _ => None,
            };
        }
        assert(all.skip(i as int).drop_first() == all.skip(i + 1));
        i += 1;
    }
    None
}

/// Switches the forwards off whose setup failed, and returns each with the reason.
pub fn disable_failed_forwards(forwards: &mut Vec<PortForward>, statuses: &[ForwardStatus]) -> (r:
    Vec<(String, String)>)
    ensures
        forward_views(final(forwards)@) == failed_off(
            forward_views(old(forwards)@),
            status_views(statuses@),
        ),
        pair_views(r@) == failures(forward_views(old(forwards)@), status_views(statuses@)),
{
    let ghost all = forward_views(forwards@);
    let ghost known = status_views(statuses@);
    let mut out: Vec<(String, String)> = Vec::new();
    let mut i: usize = 0;
    assert(pair_views(out@) == failures(all.take(0), known));
    while i < forwards.len()
        invariant
            i <= forwards@.len(),
            known == status_views(statuses@),
            all.len() == forwards@.len(),
            pair_views(out@) == failures(all.take(i as int), known),
            forall|j: int|
                0 <= j < i ==> (#[trigger] forwards@[j])@ == failed_off(all, known)[j],
            forall|j: int| i <= j < forwards@.len() ==> (#[trigger] forwards@[j])@ == all[j],
        decreases forwards.len() - i,
    {
        assert(all.take(i + 1).drop_last() == all.take(i as int));
        assert(all.take(i + 1).last() == forwards@[i as int]@);
        let ghost before = out@;
        if forwards[i].enabled {
            let id = forwards[i].id.clone();
            if let Some(reason) = find_failure(statuses, id.as_str()) {
                let mut f = forwards[i].clone();
                f.enabled = false;
                forwards.set(i, f);
                let ghost pair = (id@, reason@);
                out.push((id, reason));
                assert(pair_views(out@) == pair_views(before).push(pair));
            }
        }
        i += 1;
    }
    assert(all.take(all.len() as int) == all);
    assert(forward_views(forwards@) == failed_off(all, known));
    out
}

} // verus!
