//! Packet headers and the packet that carries an outgoing command.
use vstd::prelude::*;
use crate::commands::append_arg;
use crate::escape::escape_into;
use vstd::string::StringSliceAdditionalSpecFns;

verus! {

/// Which way a packet travels.
#[derive(Clone, Copy, Debug, PartialEq, Eq, Structural)]
pub enum Direction {
    /// Server to client.
    S2C,
    /// Client to server.
    C2S,
}

/// The kind of a packet.
#[derive(Clone, Copy, Debug, PartialEq, Eq, Structural)]
pub enum PacketType {
    Voice,
    VoiceWhisper,
    Command,
    CommandLow,
    Ping,
    Pong,
    Ack,
    AckLow,
    Init,
}

/// The flag bits of a packet header.
#[derive(Clone, Copy, Debug, PartialEq, Eq, Structural)]
pub struct Flags {
    pub bits: u8,
}

impl Flags {
    pub fn empty() -> (r: Flags)
        ensures
            r.bits == 0,
    {
        Flags { bits: 0 }
    }
}

/// The header of a received packet: what the decoding of a command looks at.
#[derive(Clone, Copy, Debug, PartialEq, Eq, Structural)]
pub struct InHeader {
    pub direction: Direction,
    pub flags: Flags,
    pub packet_type: PacketType,
}

impl InHeader {
    pub fn new(direction: Direction, flags: Flags, packet_type: PacketType) -> (r: InHeader)
        ensures
            r.direction == direction,
            r.flags == flags,
            r.packet_type == packet_type,
    {
        InHeader { direction, flags, packet_type }
    }

    pub fn direction(&self) -> (r: Direction)
        ensures
            r == self.direction,
    {
        self.direction
    }

    pub fn packet_type(&self) -> (r: PacketType)
        ensures
            r == self.packet_type,
    {
        self.packet_type
    }
}

/// A packet that is being built: its header fields and its content.
pub struct OutPacket {
    pub direction: Direction,
    pub flags: Flags,
    pub packet_type: PacketType,
    pub content: Vec<u8>,
}

impl OutPacket {
    /// A packet with the given header and no content.
    pub fn new_with_dir(dir: Direction, flags: Flags, packet_type: PacketType) -> (r: OutPacket)
        ensures
            r.direction == dir,
            r.flags == flags,
            r.packet_type == packet_type,
            r.content@ == Seq::<u8>::empty(),
    {
        OutPacket { direction: dir, flags, packet_type, content: Vec::new() }
    }

    /// The header of this packet as a receiver sees it.
    pub fn header(&self) -> (r: InHeader)
        ensures
            r.direction == self.direction,
            r.flags == self.flags,
            r.packet_type == self.packet_type,
    {
        InHeader { direction: self.direction, flags: self.flags, packet_type: self.packet_type }
    }

    pub fn content(&self) -> (r: &[u8])
        ensures
            r@ == self.content@,
    {
        self.content.as_slice()
    }
}

/// A command packet under construction.
pub struct OutCommand(pub OutPacket);

impl OutCommand {
    /// A command packet whose content starts with the command name.
    pub fn new(dir: Direction, flags: Flags, p_type: PacketType, name: &str) -> (r: OutCommand)
        ensures
            r.0.direction == dir,
            r.0.flags == flags,
            r.0.packet_type == p_type,
            r.0.content@ == name.spec_bytes(),
    {
        let mut packet = OutPacket::new_with_dir(dir, flags, p_type);
        let bytes = name.as_bytes();
        let mut i: usize = 0;
        while i < bytes.len()
            invariant
                i <= bytes@.len(),
                packet.content@ == bytes@.take(i as int),
                packet.direction == dir,
                packet.flags == flags,
                packet.packet_type == p_type,
            decreases bytes.len() - i,
        {
            packet.content.push(bytes[i]);
            i = i + 1;
            assert(packet.content@ =~= bytes@.take(i as int));
        }
        assert(bytes@.take(i as int) =~= bytes@);
        OutCommand(packet)
    }

    /// Appends the argument `name=value`, the value escaped; an empty value
    /// leaves the bare name. A space separates it from what precedes it,
    /// unless that is the start of a part.
    pub fn write_arg(&mut self, name: &str, value: &[u8])
        ensures
            final(self).0.content@ == append_arg(old(self).0.content@, name.spec_bytes(), value@),
            final(self).0.direction == old(self).0.direction,
            final(self).0.flags == old(self).0.flags,
            final(self).0.packet_type == old(self).0.packet_type,
    {
        let ghost c0 = self.0.content@;
        let len = self.0.content.len();
        if len > 0 && self.0.content[len - 1] != 0x7cu8 {
            self.0.content.push(0x20u8);
        }
        let ghost c1 = self.0.content@;
        let bytes = name.as_bytes();
        let mut i: usize = 0;
        while i < bytes.len()
            invariant
                i <= bytes@.len(),
                self.0.content@ == c1 + bytes@.take(i as int),
                self.0.direction == old(self).0.direction,
                self.0.flags == old(self).0.flags,
                self.0.packet_type == old(self).0.packet_type,
            decreases bytes.len() - i,
        {
            self.0.content.push(bytes[i]);
            i = i + 1;
            assert(self.0.content@ =~= c1 + bytes@.take(i as int));
        }
        assert(bytes@.take(i as int) =~= bytes@);
        if value.len() > 0 {
            self.0.content.push(0x3du8);
            escape_into(&mut self.0.content, value);
        }
        proof {
            assert(self.0.content@ =~= append_arg(c0, bytes@, value@));
        }
    }

    /// Starts the next part of the command.
    pub fn start_new_part(&mut self)
        ensures
            final(self).0.content@ == old(self).0.content@.push(0x7cu8),
            final(self).0.direction == old(self).0.direction,
            final(self).0.flags == old(self).0.flags,
            final(self).0.packet_type == old(self).0.packet_type,
    {
        self.0.content.push(0x7cu8);
    }

    pub fn into_packet(self) -> (r: OutPacket)
        ensures
            r == self.0,
    {
        self.0
    }
}

} // verus!
