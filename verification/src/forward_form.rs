//! The form that port forwards are added and edited in.

use vstd::prelude::*;
use vstd::string::*;

use crate::config::{profile_views, Profile, ProfileView};
use crate::forms::{opt_slice, port_in_use, text_or};
use crate::forwards::{
    host_field, label_field, parse_port, port_field, validate_label, validate_remote_host, Checked,
    PortForward, PortForwardView,
};
use crate::ids::{is_id, random_id};
use crate::ports::{owner_of_port, port_owner};
use crate::text::{decimal, decimal_string, opt_string};

verus! {

/// The buffers of the form that adds or edits a forward.
pub struct ForwardForm {
    /// The forward that is being edited; `None` when one is added.
    pub editing_id: Option<String>,
    pub label: String,
    pub local_port: String,
    pub remote_host: String,
    pub remote_port: String,
    pub enabled: bool,
}

/// What a [`ForwardForm`] holds.
#[verifier::ext_equal]
pub struct ForwardFormView {
    pub editing_id: Option<Seq<char>>,
    pub label: Seq<char>,
    pub local_port: Seq<char>,
    pub remote_host: Seq<char>,
    pub remote_port: Seq<char>,
    pub enabled: bool,
}

impl View for ForwardForm {
    type V = ForwardFormView;

    open spec fn view(&self) -> ForwardFormView {
        ForwardFormView {
            editing_id: opt_string(self.editing_id),
            label: self.label@,
            local_port: self.local_port@,
            remote_host: self.remote_host@,
            remote_port: self.remote_port@,
            enabled: self.enabled,
        }
    }
}

/// The view of a checked forward.
pub open spec fn checked_forward(r: Checked<PortForward>) -> Result<PortForwardView, Seq<char>> {
    match r {
        Ok(f) => Ok(f@),
        Err(e) => Err(e@),
    }
}

impl ForwardFormView {
    /// The forward that the filled-in form describes, or what is wrong with it. A forward that is
    /// added gets the id `fresh`.
    pub open spec fn checked(self, profiles: Seq<ProfileView>, fresh: Seq<char>) -> Result<
        PortForwardView,
        Seq<char>,
    > {
        match label_field(self.label) {
            Err(e) => Err(e),
            Ok(label) => match port_field(self.local_port, "Local port"@) {
                Err(e) => Err(e),
                Ok(local_port) => match host_field(self.remote_host) {
                    Err(e) => Err(e),
                    Ok(remote_host) => match port_field(self.remote_port, "Remote port"@) {
                        Err(e) => Err(e),
                        Ok(remote_port) => match owner_of_port(
                            profiles,
                            local_port,
                            None,
                            self.editing_id,
                        ) {
                            Some(owner) => Err(
                                "Local port"@ + " "@ + decimal(local_port as nat)
                                    + " is already used by "@ + owner,
                            ),
                            None => Ok(
                                PortForwardView {
                                    id: text_or(self.editing_id, fresh),
                                    label,
                                    local_port,
                                    remote_host,
                                    remote_port,
                                    enabled: self.enabled,
                                },
                            ),
                        },
                    },
                },
            },
        }
    }

    /// The empty form, which adds a forward.
    pub open spec fn adding() -> ForwardFormView {
        ForwardFormView {
            editing_id: None,
            label: Seq::empty(),
            local_port: Seq::empty(),
            remote_host: Seq::empty(),
            remote_port: Seq::empty(),
            enabled: true,
        }
    }

    /// The form that edits a forward.
    pub open spec fn editing(forward: PortForwardView) -> ForwardFormView {
        ForwardFormView {
            editing_id: Some(forward.id),
            label: forward.label,
            local_port: decimal(forward.local_port as nat),
            remote_host: forward.remote_host,
            remote_port: decimal(forward.remote_port as nat),
            enabled: forward.enabled,
        }
    }
}

impl ForwardForm {
    /// Whether the form edits a forward rather than adding one.
    pub fn is_edit(&self) -> (r: bool)
        ensures
            r == (self@.editing_id is Some),
    {
        self.editing_id.is_some()
    }

    /// The empty form, which adds a forward.
    pub fn add() -> (r: Self)
        ensures
            r@ == ForwardFormView::adding(),
    {
        ForwardForm {
            editing_id: None,
            label: String::new(),
            local_port: String::new(),
            remote_host: String::new(),
            remote_port: String::new(),
            enabled: true,
        }
    }

    /// The form that edits `forward`.
    pub fn edit(forward: &PortForward) -> (r: Self)
        ensures
            r@ == ForwardFormView::editing(forward@),
    {
        ForwardForm {
            editing_id: Some(forward.id.clone()),
            label: forward.label.clone(),
            local_port: decimal_string(forward.local_port as u128),
            remote_host: forward.remote_host.clone(),
            remote_port: decimal_string(forward.remote_port as u128),
            enabled: forward.enabled,
        }
    }

    /// Checks the form against every profile and builds the forward that it describes. A forward
    /// that is added gets the id `fresh`.
    pub fn validate_with_id(&self, profiles: &[Profile], fresh: String) -> (r: Checked<PortForward>)
        ensures
            checked_forward(r) == self@.checked(profile_views(profiles@), fresh@),
    {
        let label = match validate_label(self.label.as_str()) {
            Ok(label) => label,
            Err(e) => {
                return Err(e);
            },
        };
        let local_port = match parse_port(self.local_port.as_str(), "Local port") {
            Ok(port) => port,
            Err(e) => {
                return Err(e);
            },
        };
        let remote_host = match validate_remote_host(self.remote_host.as_str()) {
            Ok(host) => host,
            Err(e) => {
                return Err(e);
            },
        };
        let remote_port = match parse_port(self.remote_port.as_str(), "Remote port") {
            Ok(port) => port,
            Err(e) => {
                return Err(e);
            },
        };
        if let Some(owner) = port_owner(profiles, local_port, None, opt_slice(&self.editing_id)) {
            return Err(port_in_use("Local port", local_port, owner.as_str()));
        }
        let id = match &self.editing_id {
            Some(id) => id.clone(),
            None => fresh,
        };
        Ok(
            PortForward { id, label, local_port, remote_host, remote_port, enabled: self.enabled },
        )
    }

    /// Checks the form against every profile and builds the forward that it describes, with a
    /// random id where one is added. Local ports share one namespace, since any set of profiles
    /// can run at the same time.
    pub fn validate(&self, profiles: &[Profile]) -> (r: Checked<PortForward>)
        ensures
            exists|fresh: Seq<char>| #[trigger]
                is_id(fresh) && checked_forward(r) == self@.checked(profile_views(profiles@), fresh),
    {
        let fresh = random_id();
        let ghost id = fresh@;
        let r = self.validate_with_id(profiles, fresh);
        assert(is_id(id));
        r
    }
}

} // verus!
