use vstd::prelude::*;

use vstd::string::StringExecFns;
use vstd::utf8::{decode_utf8, valid_utf8};

use crate::cursor::{u16_le_at, u32_le_at, ByteCursor};
use crate::error::DecodeError;
use crate::server::{spec_priority_from_wire, ServerPriority, ServerUdpFlags, UDP_FLAGS_MASK};
use crate::text::{spec_dec, string_eq_str, string_from_utf8, u32_to_string};
use crate::utils::{spec_split_ports, split_comma_ports};

verus! {

/// A tag's name on the wire: either a one-byte numeric id or a short
/// textual name.  Exactly one of the two forms appears in each tag.
pub enum TagName {
    Numeric(u8),
    Textual(String),
}

/// The mathematical value of a tag name.
pub enum WireName {
    Numeric(u8),
    Textual(Seq<char>),
}

impl View for TagName {
    type V = WireName;

    open spec fn view(&self) -> WireName {
        match self {
            TagName::Numeric(n) => WireName::Numeric(*n),
            TagName::Textual(s) => WireName::Textual(s@),
        }
    }
}

/// A tag's typed value on the wire: a length-prefixed UTF-8 string or a
/// 32-bit little-endian number.
pub enum TagValue {
    Text(String),
    Number(u32),
}

/// The mathematical value of a tag value.
pub enum WireValue {
    Text(Seq<char>),
    Number(u32),
}

impl View for TagValue {
    type V = WireValue;

    open spec fn view(&self) -> WireValue {
        match self {
            TagValue::Text(s) => WireValue::Text(s@),
            TagValue::Number(n) => WireValue::Number(*n),
        }
    }
}

/// One decoded tag, resolved to the server field it describes.  A tag
/// whose name this library does not recognise resolves to `NoTag`, and
/// decoding continues: unknown names are how the format stays forward
/// compatible.
pub enum TagField {
    NoTag,
    ServerName(String),
    Description(String),
    Ping(u32),
    FailCount(u32),
    Preference(ServerPriority),
    Dns(String),
    MaxUsers(u32),
    SoftFiles(u32),
    HardFiles(u32),
    LastPingTime(u32),
    Version(String),
    UdpFlags(ServerUdpFlags),
    AuxPortsList(Vec<u16>),
    FileCount(u32),
    UserCount(u32),
    LowIdUserCount(u32),
    Country(String),
    UdpKey(u32),
    UdpKeyIpAddr(u32),
    TcpObfuscationPort(u16),
    UdpObfuscationPort(u16),
}

/// The mathematical value of a resolved tag.
pub enum TagFieldView {
    NoTag,
    ServerName(Seq<char>),
    Description(Seq<char>),
    Ping(u32),
    FailCount(u32),
    Preference(ServerPriority),
    Dns(Seq<char>),
    MaxUsers(u32),
    SoftFiles(u32),
    HardFiles(u32),
    LastPingTime(u32),
    Version(Seq<char>),
    UdpFlags(ServerUdpFlags),
    AuxPortsList(Seq<u16>),
    FileCount(u32),
    UserCount(u32),
    LowIdUserCount(u32),
    Country(Seq<char>),
    UdpKey(u32),
    UdpKeyIpAddr(u32),
    TcpObfuscationPort(u16),
    UdpObfuscationPort(u16),
}

impl View for TagField {
    type V = TagFieldView;

    open spec fn view(&self) -> TagFieldView {
        match self {
            TagField::NoTag => TagFieldView::NoTag,
            TagField::ServerName(s) => TagFieldView::ServerName(s@),
            TagField::Description(s) => TagFieldView::Description(s@),
            TagField::Ping(n) => TagFieldView::Ping(*n),
            TagField::FailCount(n) => TagFieldView::FailCount(*n),
            TagField::Preference(p) => TagFieldView::Preference(*p),
            TagField::Dns(s) => TagFieldView::Dns(s@),
            TagField::MaxUsers(n) => TagFieldView::MaxUsers(*n),
            TagField::SoftFiles(n) => TagFieldView::SoftFiles(*n),
            TagField::HardFiles(n) => TagFieldView::HardFiles(*n),
            TagField::LastPingTime(n) => TagFieldView::LastPingTime(*n),
            TagField::Version(s) => TagFieldView::Version(s@),
            TagField::UdpFlags(f) => TagFieldView::UdpFlags(*f),
            TagField::AuxPortsList(v) => TagFieldView::AuxPortsList(v@),
            TagField::FileCount(n) => TagFieldView::FileCount(*n),
            TagField::UserCount(n) => TagFieldView::UserCount(*n),
            TagField::LowIdUserCount(n) => TagFieldView::LowIdUserCount(*n),
            TagField::Country(s) => TagFieldView::Country(s@),
            TagField::UdpKey(n) => TagFieldView::UdpKey(*n),
            TagField::UdpKeyIpAddr(n) => TagFieldView::UdpKeyIpAddr(*n),
            TagField::TcpObfuscationPort(n) => TagFieldView::TcpObfuscationPort(*n),
            TagField::UdpObfuscationPort(n) => TagFieldView::UdpObfuscationPort(*n),
        }
    }
}

/// The rendering of a numeric version value: major half, a dot, minor half.
pub open spec fn spec_version_string(v: u32) -> Seq<char> {
    spec_dec((v >> 16) as int) + seq!['.'] + spec_dec((v & 0xFFFF) as int)
}

/// The field a (name, value) pair resolves to, by the fixed table, or the
/// failure it provokes.  An unrecognised name resolves to `NoTag` whatever
/// its value holds; a recognised name with the wrong kind of value is a
/// structural failure.
pub open spec fn spec_resolve(name: WireName, value: WireValue) -> Result<
    TagFieldView,
    DecodeError,
> {
    match name {
        WireName::Numeric(n) => {
            if n == 0x01 {
                match value {
                    WireValue::Text(s) => Ok(TagFieldView::ServerName(s)),
                    WireValue::Number(_) => Err(DecodeError::TagValueMismatch),
                }
            } else if n == 0x0B {
                match value {
                    WireValue::Text(s) => Ok(TagFieldView::Description(s)),
                    WireValue::Number(_) => Err(DecodeError::TagValueMismatch),
                }
            } else if n == 0x0C {
                match value {
                    WireValue::Number(v) => Ok(TagFieldView::Ping(v)),
                    WireValue::Text(_) => Err(DecodeError::TagValueMismatch),
                }
            } else if n == 0x0D {
                match value {
                    WireValue::Number(v) => Ok(TagFieldView::FailCount(v)),
                    WireValue::Text(_) => Err(DecodeError::TagValueMismatch),
                }
            } else if n == 0x0E {
                match value {
                    WireValue::Number(v) => match spec_priority_from_wire(v) {
                        Ok(p) => Ok(TagFieldView::Preference(p)),
                        Err(e) => Err(e),
                    },
                    WireValue::Text(_) => Err(DecodeError::TagValueMismatch),
                }
            } else if n == 0x85 {
                match value {
                    WireValue::Text(s) => Ok(TagFieldView::Dns(s)),
                    WireValue::Number(_) => Err(DecodeError::TagValueMismatch),
                }
            } else if n == 0x87 {
                match value {
                    WireValue::Number(v) => Ok(TagFieldView::MaxUsers(v)),
                    WireValue::Text(_) => Err(DecodeError::TagValueMismatch),
                }
            } else if n == 0x88 {
                match value {
                    WireValue::Number(v) => Ok(TagFieldView::SoftFiles(v)),
                    WireValue::Text(_) => Err(DecodeError::TagValueMismatch),
                }
            } else if n == 0x89 {
                match value {
                    WireValue::Number(v) => Ok(TagFieldView::HardFiles(v)),
                    WireValue::Text(_) => Err(DecodeError::TagValueMismatch),
                }
            } else if n == 0x90 {
                match value {
                    WireValue::Number(v) => Ok(TagFieldView::LastPingTime(v)),
                    WireValue::Text(_) => Err(DecodeError::TagValueMismatch),
                }
            } else if n == 0x91 {
                match value {
                    WireValue::Text(s) => Ok(TagFieldView::Version(s)),
                    WireValue::Number(v) => Ok(TagFieldView::Version(spec_version_string(v))),
                }
            } else if n == 0x92 {
                match value {
                    WireValue::Number(v) => Ok(
                        TagFieldView::UdpFlags(ServerUdpFlags { bits: v & UDP_FLAGS_MASK }),
                    ),
                    WireValue::Text(_) => Err(DecodeError::TagValueMismatch),
                }
            } else if n == 0x93 {
                match value {
                    WireValue::Text(s) => match spec_split_ports(s) {
                        Some(ports) => Ok(TagFieldView::AuxPortsList(ports)),
                        None => Err(DecodeError::InvalidAuxPorts),
                    },
                    WireValue::Number(_) => Err(DecodeError::TagValueMismatch),
                }
            } else if n == 0x94 {
                match value {
                    WireValue::Number(v) => Ok(TagFieldView::LowIdUserCount(v)),
                    WireValue::Text(_) => Err(DecodeError::TagValueMismatch),
                }
            } else if n == 0x95 {
                match value {
                    WireValue::Number(v) => Ok(TagFieldView::UdpKey(v)),
                    WireValue::Text(_) => Err(DecodeError::TagValueMismatch),
                }
            } else if n == 0x96 {
                match value {
                    WireValue::Number(v) => Ok(TagFieldView::UdpKeyIpAddr(v)),
                    WireValue::Text(_) => Err(DecodeError::TagValueMismatch),
                }
            } else if n == 0x97 {
                match value {
                    WireValue::Number(v) => if v <= 65535 {
                        Ok(TagFieldView::TcpObfuscationPort(v as u16))
                    } else {
                        Err(DecodeError::PortOutOfRange(v))
                    },
                    WireValue::Text(_) => Err(DecodeError::TagValueMismatch),
                }
            } else if n == 0x98 {
                match value {
                    WireValue::Number(v) => if v <= 65535 {
                        Ok(TagFieldView::UdpObfuscationPort(v as u16))
                    } else {
                        Err(DecodeError::PortOutOfRange(v))
                    },
                    WireValue::Text(_) => Err(DecodeError::TagValueMismatch),
                }
            } else {
                Ok(TagFieldView::NoTag)
            }
        },
        WireName::Textual(s) => {
            if s == "users"@ {
                match value {
                    WireValue::Number(v) => Ok(TagFieldView::UserCount(v)),
                    WireValue::Text(_) => Err(DecodeError::TagValueMismatch),
                }
            } else if s == "lowusers"@ {
                match value {
                    WireValue::Number(v) => Ok(TagFieldView::LowIdUserCount(v)),
                    WireValue::Text(_) => Err(DecodeError::TagValueMismatch),
                }
            } else if s == "files"@ {
                match value {
                    WireValue::Number(v) => Ok(TagFieldView::FileCount(v)),
                    WireValue::Text(_) => Err(DecodeError::TagValueMismatch),
                }
            } else if s == "maxusers"@ {
                match value {
                    WireValue::Number(v) => Ok(TagFieldView::MaxUsers(v)),
                    WireValue::Text(_) => Err(DecodeError::TagValueMismatch),
                }
            } else if s == "country"@ {
                match value {
                    WireValue::Text(t) => Ok(TagFieldView::Country(t)),
                    WireValue::Number(_) => Err(DecodeError::TagValueMismatch),
                }
            } else {
                Ok(TagFieldView::NoTag)
            }
        },
    }
}

/// Whether the fixed table knows a tag name.
pub open spec fn recognized_name(name: WireName) -> bool {
    match name {
        WireName::Numeric(n) => n == 0x01 || n == 0x0B || n == 0x0C || n == 0x0D || n == 0x0E || n
            == 0x85 || n == 0x87 || n == 0x88 || n == 0x89 || n == 0x90 || n == 0x91 || n == 0x92
            || n == 0x93 || n == 0x94 || n == 0x95 || n == 0x96 || n == 0x97 || n == 0x98,
        WireName::Textual(s) => s == "users"@ || s == "lowusers"@ || s == "files"@ || s
            == "maxusers"@ || s == "country"@,
    }
}

/// A tag whose name the table does not know resolves to `NoTag` whatever
/// value it carries: it never fails, so decoding of the remaining tags
/// and servers goes on.
pub proof fn lemma_unknown_tag_ignored(name: WireName, value: WireValue)
    requires
        !recognized_name(name),
    ensures
        spec_resolve(name, value) == Ok::<TagFieldView, DecodeError>(TagFieldView::NoTag),
{
}

/// The tag name starting at `i`, with the (masked) type byte and the
/// position just past the name.
pub open spec fn spec_read_name(b: Seq<u8>, i: int) -> Result<(u8, WireName, int), DecodeError> {
    if i + 1 > b.len() {
        Err(DecodeError::Truncated)
    } else {
        let tb = b[i];
        if tb & 0x80 != 0 {
            if i + 2 > b.len() {
                Err(DecodeError::Truncated)
            } else {
                Ok(((tb & 0x7F) as u8, WireName::Numeric(b[i + 1]), i + 2))
            }
        } else {
            if i + 3 > b.len() {
                Err(DecodeError::Truncated)
            } else {
                let nlen = u16_le_at(b, i + 1) as int;
                if nlen == 1 {
                    if i + 4 > b.len() {
                        Err(DecodeError::Truncated)
                    } else {
                        Ok((tb, WireName::Numeric(b[i + 3]), i + 4))
                    }
                } else {
                    if i + 3 + nlen > b.len() {
                        Err(DecodeError::Truncated)
                    } else {
                        let nb = b.subrange(i + 3, i + 3 + nlen);
                        if !valid_utf8(nb) {
                            Err(DecodeError::InvalidUtf8)
                        } else {
                            Ok((tb, WireName::Textual(decode_utf8(nb)), i + 3 + nlen))
                        }
                    }
                }
            }
        }
    }
}

/// The tag value of type `ttype` starting at `j`, with the position just
/// past it.  Type 2 is a string, type 3 a number, anything else fails.
pub open spec fn spec_read_value(b: Seq<u8>, j: int, ttype: u8) -> Result<
    (WireValue, int),
    DecodeError,
> {
    if ttype == 2 {
        if j + 2 > b.len() {
            Err(DecodeError::Truncated)
        } else {
            let slen = u16_le_at(b, j) as int;
            if j + 2 + slen > b.len() {
                Err(DecodeError::Truncated)
            } else {
                let sb = b.subrange(j + 2, j + 2 + slen);
                if !valid_utf8(sb) {
                    Err(DecodeError::InvalidUtf8)
                } else {
                    Ok((WireValue::Text(decode_utf8(sb)), j + 2 + slen))
                }
            }
        }
    } else if ttype == 3 {
        if j + 4 > b.len() {
            Err(DecodeError::Truncated)
        } else {
            Ok((WireValue::Number(u32_le_at(b, j)), j + 4))
        }
    } else {
        Err(DecodeError::InvalidTagType(ttype))
    }
}

/// One whole tag starting at `i`: its name, then its value, resolved by
/// the fixed table, with the position just past the tag.
pub open spec fn spec_parse_tag(b: Seq<u8>, i: int) -> Result<(TagFieldView, int), DecodeError> {
    match spec_read_name(b, i) {
        Err(e) => Err(e),
        Ok((ttype, name, j)) => match spec_read_value(b, j, ttype) {
            Err(e) => Err(e),
            Ok((value, end)) => match spec_resolve(name, value) {
                Err(e) => Err(e),
                Ok(f) => Ok((f, end)),
            },
        },
    }
}

/// Resolves a decoded (name, value) pair into the server field it
/// describes, by the fixed table.
fn resolve_tag(name: TagName, value: TagValue) -> (r: Result<TagField, DecodeError>)
    ensures
        match spec_resolve(name@, value@) {
            Ok(f) => r matches Ok(t) && t@ == f,
            Err(e) => r == Err::<TagField, DecodeError>(e),
        },
{
    match name {
        TagName::Numeric(n) => {
            if n == 0x01 {
                match value {
                    TagValue::Text(s) => Ok(TagField::ServerName(s)),
                    TagValue::Number(_) => Err(DecodeError::TagValueMismatch),
                }
            } else if n == 0x0B {
                match value {
                    TagValue::Text(s) => Ok(TagField::Description(s)),
                    TagValue::Number(_) => Err(DecodeError::TagValueMismatch),
                }
            } else if n == 0x0C {
                match value {
                    TagValue::Number(v) => Ok(TagField::Ping(v)),
                    TagValue::Text(_) => Err(DecodeError::TagValueMismatch),
                }
            } else if n == 0x0D {
                match value {
                    TagValue::Number(v) => Ok(TagField::FailCount(v)),
                    TagValue::Text(_) => Err(DecodeError::TagValueMismatch),
                }
            } else if n == 0x0E {
                match value {
                    TagValue::Number(v) => match ServerPriority::from_wire(v) {
                        Ok(p) => Ok(TagField::Preference(p)),
                        Err(e) => Err(e),
                    },
                    TagValue::Text(_) => Err(DecodeError::TagValueMismatch),
                }
            } else if n == 0x85 {
                match value {
                    TagValue::Text(s) => Ok(TagField::Dns(s)),
                    TagValue::Number(_) => Err(DecodeError::TagValueMismatch),
                }
            } else if n == 0x87 {
                match value {
                    TagValue::Number(v) => Ok(TagField::MaxUsers(v)),
                    TagValue::Text(_) => Err(DecodeError::TagValueMismatch),
                }
            } else if n == 0x88 {
                match value {
                    TagValue::Number(v) => Ok(TagField::SoftFiles(v)),
                    TagValue::Text(_) => Err(DecodeError::TagValueMismatch),
                }
            } else if n == 0x89 {
                match value {
                    TagValue::Number(v) => Ok(TagField::HardFiles(v)),
                    TagValue::Text(_) => Err(DecodeError::TagValueMismatch),
                }
            } else if n == 0x90 {
                match value {
                    TagValue::Number(v) => Ok(TagField::LastPingTime(v)),
                    TagValue::Text(_) => Err(DecodeError::TagValueMismatch),
                }
            } else if n == 0x91 {
                match value {
                    TagValue::Text(s) => Ok(TagField::Version(s)),
                    TagValue::Number(v) => {
                        let mut s = u32_to_string(v >> 16);
                        s.append(".");
                        proof {
                            reveal_strlit(".");
                            assert("."@ =~= seq!['.']);
                        }
                        s.append(u32_to_string(v & 0xFFFF).as_str());
                        Ok(TagField::Version(s))
                    },
                }
            } else if n == 0x92 {
                match value {
                    TagValue::Number(v) => Ok(
                        TagField::UdpFlags(ServerUdpFlags::from_bits_truncate(v)),
                    ),
                    TagValue::Text(_) => Err(DecodeError::TagValueMismatch),
                }
            } else if n == 0x93 {
                match value {
                    TagValue::Text(s) => match split_comma_ports(s.as_str()) {
                        Ok(ports) => Ok(TagField::AuxPortsList(ports)),
                        Err(e) => Err(e),
                    },
                    TagValue::Number(_) => Err(DecodeError::TagValueMismatch),
                }
            } else if n == 0x94 {
                match value {
                    TagValue::Number(v) => Ok(TagField::LowIdUserCount(v)),
                    TagValue::Text(_) => Err(DecodeError::TagValueMismatch),
                }
            } else if n == 0x95 {
                match value {
                    TagValue::Number(v) => Ok(TagField::UdpKey(v)),
                    TagValue::Text(_) => Err(DecodeError::TagValueMismatch),
                }
            } else if n == 0x96 {
                match value {
                    TagValue::Number(v) => Ok(TagField::UdpKeyIpAddr(v)),
                    TagValue::Text(_) => Err(DecodeError::TagValueMismatch),
                }
            } else if n == 0x97 {
                match value {
                    TagValue::Number(v) => if v <= 65535 {
                        Ok(TagField::TcpObfuscationPort(v as u16))
                    } else {
                        Err(DecodeError::PortOutOfRange(v))
                    },
                    TagValue::Text(_) => Err(DecodeError::TagValueMismatch),
                }
            } else if n == 0x98 {
                match value {
                    TagValue::Number(v) => if v <= 65535 {
                        Ok(TagField::UdpObfuscationPort(v as u16))
                    } else {
                        Err(DecodeError::PortOutOfRange(v))
                    },
                    TagValue::Text(_) => Err(DecodeError::TagValueMismatch),
                }
            } else {
                Ok(TagField::NoTag)
            }
        },
        TagName::Textual(s) => {
            if string_eq_str(&s, "users") {
                match value {
                    TagValue::Number(v) => Ok(TagField::UserCount(v)),
                    TagValue::Text(_) => Err(DecodeError::TagValueMismatch),
                }
            } else if string_eq_str(&s, "lowusers") {
                match value {
                    TagValue::Number(v) => Ok(TagField::LowIdUserCount(v)),
                    TagValue::Text(_) => Err(DecodeError::TagValueMismatch),
                }
            } else if string_eq_str(&s, "files") {
                match value {
                    TagValue::Number(v) => Ok(TagField::FileCount(v)),
                    TagValue::Text(_) => Err(DecodeError::TagValueMismatch),
                }
            } else if string_eq_str(&s, "maxusers") {
                match value {
                    TagValue::Number(v) => Ok(TagField::MaxUsers(v)),
                    TagValue::Text(_) => Err(DecodeError::TagValueMismatch),
                }
            } else if string_eq_str(&s, "country") {
                match value {
                    TagValue::Text(t) => Ok(TagField::Country(t)),
                    TagValue::Number(_) => Err(DecodeError::TagValueMismatch),
                }
            } else {
                Ok(TagField::NoTag)
            }
        },
    }
}

/// Reads a tag value of the given (masked) type from the cursor.
fn read_tag_value(cur: &mut ByteCursor, ttype: u8) -> (r: Result<TagValue, DecodeError>)
    requires
        old(cur).wf(),
    ensures
        final(cur).wf(),
        final(cur).bytes() == old(cur).bytes(),
        match spec_read_value(old(cur).bytes(), old(cur).pos(), ttype) {
            Ok((v, end)) => (r matches Ok(tv) && tv@ == v) && final(cur).pos() == end,
            Err(e) => r == Err::<TagValue, DecodeError>(e),
        },
{
    if ttype == 2 {
        let slen = match cur.read_u16_le() {
            Ok(v) => v,
            Err(e) => {
                return Err(e);
            },
        };
        let sb = match cur.read_bytes(slen as usize) {
            Ok(v) => v,
            Err(e) => {
                return Err(e);
            },
        };
        let ghost sbv = sb@;
        match string_from_utf8(sb) {
            Some(s) => Ok(TagValue::Text(s)),
            None => Err(DecodeError::InvalidUtf8),
        }
    } else if ttype == 3 {
        match cur.read_u32_le() {
            Ok(v) => Ok(TagValue::Number(v)),
            Err(e) => Err(e),
        }
    } else {
        Err(DecodeError::InvalidTagType(ttype))
    }
}

/// Decodes one self-describing (name, typed value) tag from the cursor and
/// resolves it to the server field it describes.  Unrecognised names come
/// back as [`TagField::NoTag`]; structural damage fails the tag, and with
/// it the whole file.
pub fn parse_tag(cur: &mut ByteCursor) -> (r: Result<TagField, DecodeError>)
    requires
        old(cur).wf(),
    ensures
        final(cur).wf(),
        final(cur).bytes() == old(cur).bytes(),
        match spec_parse_tag(old(cur).bytes(), old(cur).pos()) {
            Ok((f, end)) => (r matches Ok(t) && t@ == f) && final(cur).pos() == end,
            Err(e) => r == Err::<TagField, DecodeError>(e),
        },
{
    let type_byte = match cur.read_u8() {
        Ok(v) => v,
        Err(e) => {
            return Err(e);
        },
    };
    let ttype: u8;
    let name: TagName;
    if type_byte & 0x80 != 0 {
        ttype = type_byte & 0x7F;
        let nm = match cur.read_u8() {
            Ok(v) => v,
            Err(e) => {
                return Err(e);
            },
        };
        name = TagName::Numeric(nm);
    } else {
        ttype = type_byte;
        let nlen = match cur.read_u16_le() {
            Ok(v) => v,
            Err(e) => {
                return Err(e);
            },
        };
        if nlen == 1 {
            let nm = match cur.read_u8() {
                Ok(v) => v,
                Err(e) => {
                    return Err(e);
                },
            };
            name = TagName::Numeric(nm);
        } else {
            let nb = match cur.read_bytes(nlen as usize) {
                Ok(v) => v,
                Err(e) => {
                    return Err(e);
                },
            };
            let ghost nbv = nb@;
            match string_from_utf8(nb) {
                Some(s) => {
                    name = TagName::Textual(s);
                },
                None => {
                    return Err(DecodeError::InvalidUtf8);
                },
            }
        }
    }
    let value = match read_tag_value(cur, ttype) {
        Ok(v) => v,
        Err(e) => {
            return Err(e);
        },
    };
    resolve_tag(name, value)
}

} // verus!
