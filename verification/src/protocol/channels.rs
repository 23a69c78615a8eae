use vstd::prelude::*;

use vstd::string::StringSliceAdditionalSpecFns;

use crate::text::{chars_match_at, chars_of, has_prefix, starts_with};

verus! {

/// The kinds of Pusher channel, told apart by the channel name's prefix.
#[derive(Debug, Clone, Copy, PartialEq, Eq, Structural)]
pub enum ChannelKind {
    Public,
    Private,
    Presence,
    EncryptedPrivate,
    CachePublic,
    CachePrivate,
    CachePresence,
    CacheEncryptedPrivate,
}

/// The kind of a channel name that carries no `cache-` prefix.
pub open spec fn spec_kind_no_cache(name: Seq<char>) -> ChannelKind {
    if has_prefix(name, "presence-"@) {
        ChannelKind::Presence
    } else if has_prefix(name, "private-encrypted-"@) {
        ChannelKind::EncryptedPrivate
    } else if has_prefix(name, "private-"@) {
        ChannelKind::Private
    } else {
        ChannelKind::Public
    }
}

/// The cache variant of a non-cache kind.
pub open spec fn spec_cached(k: ChannelKind) -> ChannelKind {
    match k {
        ChannelKind::Public => ChannelKind::CachePublic,
        ChannelKind::Private => ChannelKind::CachePrivate,
        ChannelKind::Presence => ChannelKind::CachePresence,
        ChannelKind::EncryptedPrivate => ChannelKind::CacheEncryptedPrivate,
        other => other,
    }
}

/// The kind of a channel name: a `cache-` prefix selects the cache variant of the kind
/// that the rest of the name has.
pub open spec fn spec_kind(name: Seq<char>) -> ChannelKind {
    if has_prefix(name, "cache-"@) {
        spec_cached(spec_kind_no_cache(name.skip("cache-"@.len() as int)))
    } else {
        spec_kind_no_cache(name)
    }
}

pub open spec fn spec_is_private(k: ChannelKind) -> bool {
    k is Private || k is EncryptedPrivate || k is CachePrivate || k is CacheEncryptedPrivate
}

pub open spec fn spec_is_presence(k: ChannelKind) -> bool {
    k is Presence || k is CachePresence
}

pub open spec fn spec_is_cache(k: ChannelKind) -> bool {
    k is CachePublic || k is CachePrivate || k is CachePresence || k is CacheEncryptedPrivate
}

pub open spec fn spec_requires_auth(k: ChannelKind) -> bool {
    spec_is_private(k) || spec_is_presence(k)
}

/// The kind of the channel whose name's characters are `name[start..]`.
fn kind_no_cache_at(name: &Vec<char>, start: usize) -> (k: ChannelKind)
    requires
        start <= name@.len(),
    ensures
        k == spec_kind_no_cache(name@.skip(start as int)),
{
    if chars_match_at(name, start, &chars_of("presence-")) {
        ChannelKind::Presence
    } else if chars_match_at(name, start, &chars_of("private-encrypted-")) {
        ChannelKind::EncryptedPrivate
    } else if chars_match_at(name, start, &chars_of("private-")) {
        ChannelKind::Private
    } else {
        ChannelKind::Public
    }
}

impl ChannelKind {
    pub fn from_name(name: &str) -> (k: Self)
        ensures
            k == spec_kind(name@),
    {
        let chars = chars_of(name);
        assert(chars@.skip(0) =~= chars@);
        let cache = chars_of("cache-");
        if chars_match_at(&chars, 0, &cache) {
            return match kind_no_cache_at(&chars, cache.len()) {
                ChannelKind::Public => ChannelKind::CachePublic,
                ChannelKind::Private => ChannelKind::CachePrivate,
                ChannelKind::Presence => ChannelKind::CachePresence,
                ChannelKind::EncryptedPrivate => ChannelKind::CacheEncryptedPrivate,
                other => other,
            };
        }
        Self::from_name_no_cache(name)
    }

    fn from_name_no_cache(name: &str) -> (k: Self)
        ensures
            k == spec_kind_no_cache(name@),
    {
        if starts_with(name, "presence-") {
            ChannelKind::Presence
        } else if starts_with(name, "private-encrypted-") {
            ChannelKind::EncryptedPrivate
        } else if starts_with(name, "private-") {
            ChannelKind::Private
        } else {
            ChannelKind::Public
        }
    }

    pub fn is_private(self) -> (r: bool)
        ensures
            r == spec_is_private(self),
    {
        match self {
            ChannelKind::Private
            | ChannelKind::EncryptedPrivate
            | ChannelKind::CachePrivate
            | ChannelKind::CacheEncryptedPrivate => true,
            _ => false,
        }
    }

    pub fn is_presence(self) -> (r: bool)
        ensures
            r == spec_is_presence(self),
    {
        match self {
            ChannelKind::Presence | ChannelKind::CachePresence => true,
            _ => false,
        }
    }

    pub fn is_cache(self) -> (r: bool)
        ensures
            r == spec_is_cache(self),
    {
        match self {
            ChannelKind::CachePublic
            | ChannelKind::CachePrivate
            | ChannelKind::CachePresence
            | ChannelKind::CacheEncryptedPrivate => true,
            _ => false,
        }
    }

    pub fn requires_auth(self) -> (r: bool)
        ensures
            r == spec_requires_auth(self),
    {
        self.is_private() || self.is_presence()
    }
}

/// A byte that may stand in a channel name: ASCII letters and digits and `-_=@,.;`.
pub open spec fn is_channel_name_byte(b: u8) -> bool {
    (48 <= b <= 57) || (65 <= b <= 90) || (97 <= b <= 122)
        || b == 45 || b == 95 || b == 61 || b == 64 || b == 44 || b == 46 || b == 59
}

/// Where the checked part of a channel name starts: after one optional leading `#`.
pub open spec fn channel_name_start(b: Seq<u8>) -> int {
    if b.len() > 0 && b[0] == 35 { 1 } else { 0 }
}

/// A valid channel name has 1 to 200 bytes; after one optional leading `#` there is at
/// least one byte, and every byte is a channel-name byte.
pub open spec fn valid_channel_name_bytes(b: Seq<u8>) -> bool {
    &&& 1 <= b.len() <= 200
    &&& channel_name_start(b) < b.len()
    &&& forall|i: int| channel_name_start(b) <= i < b.len() ==> is_channel_name_byte(#[trigger] b[i])
}

fn channel_name_byte(b: u8) -> (r: bool)
    ensures
        r == is_channel_name_byte(b),
{
    (48 <= b && b <= 57) || (65 <= b && b <= 90) || (97 <= b && b <= 122)
        || b == 45 || b == 95 || b == 61 || b == 64 || b == 44 || b == 46 || b == 59
}

pub fn is_valid_channel_name(name: &str) -> (r: bool)
    ensures
        r == valid_channel_name_bytes(name.spec_bytes()),
{
    let bytes = name.as_bytes();
    if bytes.len() == 0 || bytes.len() > 200 {
        return false;
    }
    let start: usize = if bytes[0] == 35 { 1 } else { 0 };
    if start == bytes.len() {
        return false;
    }
    let mut i = start;
    while i < bytes.len()
        invariant
            bytes@ == name.spec_bytes(),
            start == channel_name_start(bytes@),
            start <= i <= bytes@.len(),
            forall|j: int| start <= j < i ==> is_channel_name_byte(#[trigger] bytes@[j]),
        decreases bytes@.len() - i,
    {
        if !channel_name_byte(bytes[i]) {
            return false;
        }
        i = i + 1;
    }
    true
}

} // verus!
