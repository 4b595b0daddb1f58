//! The client network thread's connection state machine: disconnected, connecting to a server,
//! or connected and logged in.
use vstd::prelude::*;

use crate::entity::RegistryId;
use crate::network::packets::PacketId;
use crate::network::{EntityNetworkId, NetworkThreadState, NonNilUuid, PeerAddress};

verus! {

/// The phase of the client's connection to a server.
#[derive(Clone, Copy, Debug, PartialEq, Eq, Structural)]
pub enum NetworkThreadClientStateVariant {
    /// No peer connected.
    Disconnected,
    /// Connection in progress to the given server.
    Connecting(PeerAddress),
    /// Authenticated connection to the given server.
    Connected(PeerAddress),
}

/// Why the client refuses a connection step.
#[derive(Clone, Copy, Debug, PartialEq, Eq, Structural)]
pub enum ClientConnectionError {
    /// A connection is already established or under way, to the given server if known.
    AlreadyConnecting(Option<PeerAddress>),
    /// A logged-in connection already exists.
    AlreadyConnected,
    /// There is no connection to the server.
    NotConnected,
}

/// Why the server's answer to a login is not a success.
#[derive(Clone, Copy, Debug, PartialEq, Eq, Structural)]
pub enum AuthenticationFailure {
    /// The answer was a packet of another type.
    UnexpectedPacket(PacketId),
    /// The server refused the login.
    Refused,
}

/// The network thread game client state.
pub struct NetworkThreadClientState {
    /// The current phase.
    variant: NetworkThreadClientStateVariant,
}

impl NetworkThreadClientState {
    /// The current phase.
    pub closed spec fn phase(self) -> NetworkThreadClientStateVariant {
        self.variant
    }

    /// A disconnected client.
    pub fn new() -> (r: NetworkThreadClientState)
        ensures
            r.phase() == NetworkThreadClientStateVariant::Disconnected,
    {
        NetworkThreadClientState { variant: NetworkThreadClientStateVariant::Disconnected }
    }

    /// The current phase.
    pub fn variant(&self) -> (r: NetworkThreadClientStateVariant)
        ensures
            r == self.phase(),
    {
        self.variant
    }

    /// True if there is currently no connection or an attempt at a connection.
    pub fn is_disconnected(&self) -> (r: bool)
        ensures
            r == (self.phase() is Disconnected),
    {
        match &self.variant {
            NetworkThreadClientStateVariant::Disconnected => true,
            NetworkThreadClientStateVariant::Connecting(..) => false,
            NetworkThreadClientStateVariant::Connected(..) => false,
        }
    }

    /// True if there is currently an attempt at a connection.
    pub fn is_connecting(&self) -> (r: bool)
        ensures
            r == (self.phase() is Connecting),
    {
        match &self.variant {
            NetworkThreadClientStateVariant::Disconnected => false,
            NetworkThreadClientStateVariant::Connecting(..) => true,
            NetworkThreadClientStateVariant::Connected(..) => false,
        }
    }

    /// True if there is currently an authenticated connection.
    pub fn is_connected(&self) -> (r: bool)
        ensures
            r == (self.phase() is Connected),
    {
        match &self.variant {
            NetworkThreadClientStateVariant::Disconnected => false,
            NetworkThreadClientStateVariant::Connecting(..) => false,
            NetworkThreadClientStateVariant::Connected(..) => true,
        }
    }

    /// Returns the address of the server connected or being connected to.
    pub fn server_address(&self) -> (r: Option<PeerAddress>)
        ensures
            r == match self.phase() {
                NetworkThreadClientStateVariant::Disconnected => None,
                NetworkThreadClientStateVariant::Connecting(a) => Some(a),
                NetworkThreadClientStateVariant::Connected(a) => Some(a),
            },
    {
        match &self.variant {
            NetworkThreadClientStateVariant::Disconnected => None,
            NetworkThreadClientStateVariant::Connecting(addr) => Some(*addr),
            NetworkThreadClientStateVariant::Connected(addr) => Some(*addr),
        }
    }

    /// Starts connecting to a remote server at `address`; refused unless disconnected.
    pub fn begin_connect(&mut self, address: PeerAddress) -> (r: Result<(), ClientConnectionError>)
        ensures
            old(self).phase() is Disconnected ==> r is Ok && final(self).phase()
                == NetworkThreadClientStateVariant::Connecting(address),
            !(old(self).phase() is Disconnected) ==> r == Err::<(), ClientConnectionError>(
                ClientConnectionError::AlreadyConnecting(old(self).server_address_spec()),
            ) && final(self).phase() == old(self).phase(),
    {
        if !self.is_disconnected() {
            return Err(ClientConnectionError::AlreadyConnecting(self.server_address()));
        }
        self.variant = NetworkThreadClientStateVariant::Connecting(address);
        Ok(())
    }

    /// The address of the server connected or being connected to.
    pub open spec fn server_address_spec(self) -> Option<PeerAddress> {
        match self.phase() {
            NetworkThreadClientStateVariant::Disconnected => None,
            NetworkThreadClientStateVariant::Connecting(a) => Some(a),
            NetworkThreadClientStateVariant::Connected(a) => Some(a),
        }
    }

    /// Records the address the connection attempt reached, once the transport is established.
    pub fn connecting_to(&mut self, address: PeerAddress)
        ensures
            final(self).phase() == NetworkThreadClientStateVariant::Connecting(address),
    {
        self.variant = NetworkThreadClientStateVariant::Connecting(address);
    }

    /// Checks that a login may be attempted: refused when already logged in.
    pub fn check_can_authenticate(&self) -> (r: Result<(), ClientConnectionError>)
        ensures
            r is Ok <==> !(self.phase() is Connected),
            r is Err ==> r == Err::<(), ClientConnectionError>(ClientConnectionError::AlreadyConnected),
    {
        if self.is_connected() {
            return Err(ClientConnectionError::AlreadyConnected);
        }
        Ok(())
    }

    /// Records the successful login to the server at `address`.
    pub fn on_authenticated(&mut self, address: PeerAddress)
        requires
            !(old(self).phase() is Connected),
        ensures
            final(self).phase() == NetworkThreadClientStateVariant::Connected(address),
    {
        self.variant = NetworkThreadClientStateVariant::Connected(address);
    }

    /// Checks that a stream may be opened: only on a logged-in connection.
    pub fn check_can_open_stream(&self) -> (r: Result<PeerAddress, ClientConnectionError>)
        ensures
            match self.phase() {
                NetworkThreadClientStateVariant::Connected(a) => r == Ok::<PeerAddress, ClientConnectionError>(a),
                _ => r == Err::<PeerAddress, ClientConnectionError>(ClientConnectionError::NotConnected),
            },
    {
        match &self.variant {
            NetworkThreadClientStateVariant::Connected(addr) => Ok(*addr),
            _ => Err(ClientConnectionError::NotConnected),
        }
    }

    /// Drops the connection.
    pub fn shutdown(&mut self)
        ensures
            final(self).phase() == NetworkThreadClientStateVariant::Disconnected,
    {
        self.variant = NetworkThreadClientStateVariant::Disconnected;
    }
}

impl NetworkThreadState for NetworkThreadClientState {
    /// Drops the connection.
    fn shutdown(&mut self)
        ensures
            final(self).phase() == NetworkThreadClientStateVariant::Disconnected,
    {
        self.variant = NetworkThreadClientStateVariant::Disconnected;
    }
}

/// Marks an entity as coming from the server.
#[derive(Clone, Copy, Debug, PartialEq, Eq, Structural)]
pub struct ClientRemoteEntity {
    registry_id: RegistryId,
}

impl ClientRemoteEntity {
    /// The registry id of the entity's type.
    pub closed spec fn registry(self) -> RegistryId {
        self.registry_id
    }

    /// The registry id of the entity's type.
    pub fn registry_id(&self) -> (r: RegistryId)
        ensures
            r == self.registry(),
    {
        self.registry_id
    }
}

/// Why a new entity announced by the server is refused.
#[derive(Clone, Copy, Debug, PartialEq, Eq, Structural)]
pub enum NewEntityError {
    /// The registry id is zero.
    InvalidRegistryId,
    /// The network id is the nil UUID.
    InvalidNetworkId,
}

/// Checks a new entity announced by the server, with raw registry id `raw_registry_id` and
/// network id bits `raw_nid`: the registry id must not be zero, then the network id must not be
/// nil. Returns the entity's network id and its remote marker.
pub fn accept_new_entity(raw_registry_id: u32, raw_nid: u128) -> (r: Result<(EntityNetworkId, ClientRemoteEntity), NewEntityError>)
    ensures
        raw_registry_id == 0 ==> r == Err::<(EntityNetworkId, ClientRemoteEntity), NewEntityError>(NewEntityError::InvalidRegistryId),
        raw_registry_id != 0 && raw_nid == 0 ==> r == Err::<(EntityNetworkId, ClientRemoteEntity), NewEntityError>(NewEntityError::InvalidNetworkId),
        raw_registry_id != 0 && raw_nid != 0 ==> (r matches Ok((nid, marker)) && nid.0.bits() == raw_nid
            && marker.registry() == RegistryId(raw_registry_id)),
{
    if raw_registry_id == 0 {
        return Err(NewEntityError::InvalidRegistryId);
    }
    match NonNilUuid::new(raw_nid) {
        Some(u) => Ok((EntityNetworkId(u), ClientRemoteEntity { registry_id: RegistryId(raw_registry_id) })),
        None => Err(NewEntityError::InvalidNetworkId),
    }
}

/// Checks the server's answer to a login: a packet of type `id`, which `accepted` or refused it.
pub fn authentication_outcome(id: PacketId, accepted: bool) -> (r: Result<(), AuthenticationFailure>)
    ensures
        id != PacketId::Authenticate ==> r == Err::<(), AuthenticationFailure>(AuthenticationFailure::UnexpectedPacket(id)),
        id == PacketId::Authenticate && accepted ==> r is Ok,
        id == PacketId::Authenticate && !accepted ==> r == Err::<(), AuthenticationFailure>(AuthenticationFailure::Refused),
{
    if id != PacketId::Authenticate {
        return Err(AuthenticationFailure::UnexpectedPacket(id));
    }
    if accepted {
        Ok(())
    } else {
        Err(AuthenticationFailure::Refused)
    }
}

/// The names a client logs in with: a local player and a remote one are told apart.
pub struct LoginIdentity {
    /// The player's display name.
    pub player_display_name: String,
    /// The played character's display name.
    pub character_display_name: String,
}

/// The test identity the client logs in with: Alice on an in-process server, Bob on a remote one.
pub fn login_identity(is_local: bool) -> (r: LoginIdentity)
    ensures
        is_local ==> r.player_display_name@ == "Alice"@ && r.character_display_name@ == "Alice Zero"@,
        !is_local ==> r.player_display_name@ == "Bob"@ && r.character_display_name@ == "Bob One"@,
{
    if is_local {
        LoginIdentity {
            player_display_name: String::from_str("Alice"),
            character_display_name: String::from_str("Alice Zero"),
        }
    } else {
        LoginIdentity {
            player_display_name: String::from_str("Bob"),
            character_display_name: String::from_str("Bob One"),
        }
    }
}

} // verus!
