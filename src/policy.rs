//! Channel policies, their builder, and the decisions they dictate on
//! join, invite and leave requests.

use vstd::prelude::*;

verus! {

/// The rules of one channel, fixed when the channel is created.
#[derive(Clone, Copy, PartialEq, Eq, Structural, Debug)]
pub struct Policy {
    /// Threads that are not members may send invitations.
    invitation_from_not_member: bool,
    /// The origin may leave while other members are still connected.
    origin_can_leave: bool,
    /// A thread may join without a prior invitation.
    join_by_handle: bool,
    /// The channel is one peer-to-peer pair: never more than two members.
    no_multiple_connectons: bool,
}

/// The four flags of a [`Policy`], as plain booleans.
pub ghost struct PolicyView {
    pub invitation_from_not_member: bool,
    pub origin_can_leave: bool,
    pub join_by_handle: bool,
    pub no_multiple_connections: bool,
}

impl View for Policy {
    type V = PolicyView;

    closed spec fn view(&self) -> PolicyView {
        PolicyView {
            invitation_from_not_member: self.invitation_from_not_member,
            origin_can_leave: self.origin_can_leave,
            join_by_handle: self.join_by_handle,
            no_multiple_connections: self.no_multiple_connectons,
        }
    }
}

impl Policy {
    /// Whether threads that are not members may send invitations.
    pub fn invitation_from_not_member(&self) -> (r: bool)
        ensures
            r == self@.invitation_from_not_member,
    {
        self.invitation_from_not_member
    }

    /// Whether the origin may leave while other members are connected.
    pub fn origin_can_leave(&self) -> (r: bool)
        ensures
            r == self@.origin_can_leave,
    {
        self.origin_can_leave
    }

    /// Whether a thread may join without an invitation.
    pub fn join_by_handle(&self) -> (r: bool)
        ensures
            r == self@.join_by_handle,
    {
        self.join_by_handle
    }

    /// Whether the channel is restricted to a single pair of members.
    pub fn no_multiple_connectons(&self) -> (r: bool)
        ensures
            r == self@.no_multiple_connections,
    {
        self.no_multiple_connectons
    }
}

/// Collects the four flags of a [`Policy`]; building fails until all are set.
#[derive(Clone, Copy, Debug)]
pub struct PolicyBuilder {
    invitation_from_not_member: Option<bool>,
    origin_can_leave: Option<bool>,
    join_by_handle: Option<bool>,
    no_multiple_connectons: Option<bool>,
}

/// The flags a [`PolicyBuilder`] holds so far; `None` where unset.
pub ghost struct PolicyBuilderView {
    pub invitation_from_not_member: Option<bool>,
    pub origin_can_leave: Option<bool>,
    pub join_by_handle: Option<bool>,
    pub no_multiple_connections: Option<bool>,
}

impl PolicyBuilderView {
    pub open spec fn is_complete(self) -> bool {
        &&& self.invitation_from_not_member is Some
        &&& self.origin_can_leave is Some
        &&& self.join_by_handle is Some
        &&& self.no_multiple_connections is Some
    }

    /// The policy that a complete builder yields.
    pub open spec fn policy(self) -> PolicyView
        recommends
            self.is_complete(),
    {
        PolicyView {
            invitation_from_not_member: self.invitation_from_not_member->0,
            origin_can_leave: self.origin_can_leave->0,
            join_by_handle: self.join_by_handle->0,
            no_multiple_connections: self.no_multiple_connections->0,
        }
    }
}

impl View for PolicyBuilder {
    type V = PolicyBuilderView;

    closed spec fn view(&self) -> PolicyBuilderView {
        PolicyBuilderView {
            invitation_from_not_member: self.invitation_from_not_member,
            origin_can_leave: self.origin_can_leave,
            join_by_handle: self.join_by_handle,
            no_multiple_connections: self.no_multiple_connectons,
        }
    }
}

impl Default for PolicyBuilder {
    fn default() -> (r: PolicyBuilder)
        ensures
            r@.invitation_from_not_member is None,
            r@.origin_can_leave is None,
            r@.join_by_handle is None,
            r@.no_multiple_connections is None,
    {
        PolicyBuilder {
            invitation_from_not_member: None,
            origin_can_leave: None,
            join_by_handle: None,
            no_multiple_connectons: None,
        }
    }
}

impl PolicyBuilder {
    /// A builder with no flag set.
    pub fn new() -> (r: PolicyBuilder)
        ensures
            r@.invitation_from_not_member is None,
            r@.origin_can_leave is None,
            r@.join_by_handle is None,
            r@.no_multiple_connections is None,
    {
        PolicyBuilder::default()
    }

    pub fn invitation_from_not_member(&mut self, val: bool)
        ensures
            final(self)@ == (PolicyBuilderView { invitation_from_not_member: Some(val), ..old(self)@ }),
    {
        self.invitation_from_not_member = Some(val);
    }

    pub fn origin_can_leave(&mut self, val: bool)
        ensures
            final(self)@ == (PolicyBuilderView { origin_can_leave: Some(val), ..old(self)@ }),
    {
        self.origin_can_leave = Some(val);
    }

    pub fn join_by_handle(&mut self, val: bool)
        ensures
            final(self)@ == (PolicyBuilderView { join_by_handle: Some(val), ..old(self)@ }),
    {
        self.join_by_handle = Some(val);
    }

    pub fn no_multiple_connectons(&mut self, val: bool)
        ensures
            final(self)@ == (PolicyBuilderView { no_multiple_connections: Some(val), ..old(self)@ }),
    {
        self.no_multiple_connectons = Some(val);
    }

    /// The policy, once every flag is set; otherwise the builder itself,
    /// unchanged, so that the missing flags can still be set.
    pub fn build(self) -> (r: Result<Policy, PolicyBuilder>)
        ensures
            self@.is_complete() <==> r is Ok,
            r matches Ok(p) ==> p@ == self@.policy(),
            r matches Err(b) ==> b@ == self@,
    {
        let invitation_from_not_member = match self.invitation_from_not_member {
            Some(v) => v,
            None => return Err(self),
        };
        let origin_can_leave = match self.origin_can_leave {
            Some(v) => v,
            None => return Err(self),
        };
        let join_by_handle = match self.join_by_handle {
            Some(v) => v,
            None => return Err(self),
        };
        let no_multiple_connectons = match self.no_multiple_connectons {
            Some(v) => v,
            None => return Err(self),
        };
        Ok(Policy { invitation_from_not_member, origin_can_leave, join_by_handle, no_multiple_connectons })
    }
}

/// Why a membership request was refused. A refused request changes nothing.
#[derive(Clone, Copy, PartialEq, Eq, Structural, Debug)]
pub enum ChannelError {
    /// The thread is not a member of the channel.
    NotMember,
    /// The thread is already a member; it stays one.
    AlreadyMember,
    /// The policy does not let this thread join, or invite.
    JoinForbidden,
    /// The channel is one peer-to-peer pair and already has two members.
    MultipleConnectionsForbidden,
    /// The origin may not leave while other members are connected.
    LeaveForbidden,
}

/// Verdict on a join: `member` whether the thread is a member already,
/// `invited` whether it holds an invitation, `count` the current size.
pub open spec fn join_verdict(p: PolicyView, member: bool, invited: bool, count: nat) -> Result<
    (),
    ChannelError,
> {
    if member {
        Err(ChannelError::AlreadyMember)
    } else if !invited && !p.join_by_handle {
        Err(ChannelError::JoinForbidden)
    } else if p.no_multiple_connections && count + 1 > 2 {
        Err(ChannelError::MultipleConnectionsForbidden)
    } else {
        Ok(())
    }
}

/// Verdict on an invitation sent by a thread that is (`member`) or is not a
/// member of the channel.
pub open spec fn invite_verdict(p: PolicyView, member: bool) -> Result<(), ChannelError> {
    if !member && !p.invitation_from_not_member {
        Err(ChannelError::JoinForbidden)
    } else {
        Ok(())
    }
}

/// Verdict on a leave: `origin` whether the thread belongs to the channel's
/// origin service, `others` whether other members are connected.
pub open spec fn leave_verdict(p: PolicyView, member: bool, origin: bool, others: bool) -> Result<
    (),
    ChannelError,
> {
    if !member {
        Err(ChannelError::NotMember)
    } else if origin && others && !p.origin_can_leave {
        Err(ChannelError::LeaveForbidden)
    } else {
        Ok(())
    }
}

/// Decides a join request against the policy.
pub fn decide_join(p: &Policy, member: bool, invited: bool, count: usize) -> (r: Result<
    (),
    ChannelError,
>)
    ensures
        r == join_verdict(p@, member, invited, count as nat),
{
    if member {
        Err(ChannelError::AlreadyMember)
    } else if !invited && !p.join_by_handle() {
        Err(ChannelError::JoinForbidden)
    } else if p.no_multiple_connectons() && count >= 2 {
        Err(ChannelError::MultipleConnectionsForbidden)
    } else {
        Ok(())
    }
}

/// Decides an invitation against the policy.
pub fn decide_invite(p: &Policy, member: bool) -> (r: Result<(), ChannelError>)
    ensures
        r == invite_verdict(p@, member),
{
    if !member && !p.invitation_from_not_member() {
        Err(ChannelError::JoinForbidden)
    } else {
        Ok(())
    }
}

/// Decides a leave request against the policy.
pub fn decide_leave(p: &Policy, member: bool, origin: bool, others: bool) -> (r: Result<
    (),
    ChannelError,
>)
    ensures
        r == leave_verdict(p@, member, origin, others),
{
    if !member {
        Err(ChannelError::NotMember)
    } else if origin && others && !p.origin_can_leave() {
        Err(ChannelError::LeaveForbidden)
    } else {
        Ok(())
    }
}

} // verus!
