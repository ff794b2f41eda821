//! What can be wrong with a dump.

use vstd::prelude::*;

use crate::cache::persistence::decode::after;
use crate::error::{DnsError, DnsErrorView};
use crate::text::{concat, decimal, decimal_of, push_text};

verus! {

/// The number with which every dump begins: `DSCACHE1`, least significant octet
/// first.
pub const CACHE_DUMP_MAGIC: u64 = 0x3145_4843_4143_5344;

/// The first version: ages of stale entries are not to be trusted.
pub const LEGACY_CACHE_DUMP_VERSION: u32 = 1;

/// The last version that is one value.
pub const PREVIOUS_CACHE_DUMP_VERSION: u32 = 2;

/// The current version: a header and framed entries.
pub const CACHE_DUMP_VERSION: u32 = 3;

/// The largest dump that is written to or read from a file.
pub const MAX_PERSISTED_CACHE_DUMP_BYTES: usize = 67108864;

/// What is wrong with a dump.
#[derive(Debug, PartialEq, Eq)]
pub enum DumpError {
    TruncatedHeader,
    /// The octets with which a dump begins cannot be read, and why.
    MalformedHeader(String),
    BadMagic,
    UnsupportedVersion(u32),
    /// A dump that is one value cannot be read, and why.
    MalformedDump(String),
    UnsupportedLegacyVersion(u32),
    TruncatedFramedHeader,
    /// The header of a current dump cannot be read, and why.
    MalformedFramedHeader(String),
    BadFramedMagic,
    BadFramedVersion(u32),
    EntryCountTooLarge,
    TruncatedFrameLength,
    /// The length of a frame cannot be read, and why.
    MalformedFrameLength(String),
    FrameLengthTooLarge,
    FrameOffsetOverflow,
    TruncatedFrame,
    /// A frame cannot be read, and why.
    MalformedFrame(String),
    TrailingBytes,
    InvalidDomain,
    NoncanonicalEcs(String),
    PartialEcs(String),
    /// The response for a domain cannot be read, and why.
    InvalidMessage(String, String),
    InconsistentEcs(String),
    DuplicateKey,
    /// An entry cannot be written, and why: it has a part that is larger than may be
    /// allocated at once.
    EntryNotSerializable(String),
    /// An entry takes more octets than can be counted.
    SizeOverflow,
    /// The dump takes more octets than the limit.
    TooLarge { limit: usize, minimum_size: usize },
}

/// The mathematical content of a [`DumpError`].
pub enum DumpErrorView {
    TruncatedHeader,
    MalformedHeader(Seq<char>),
    BadMagic,
    UnsupportedVersion(u32),
    MalformedDump(Seq<char>),
    UnsupportedLegacyVersion(u32),
    TruncatedFramedHeader,
    MalformedFramedHeader(Seq<char>),
    BadFramedMagic,
    BadFramedVersion(u32),
    EntryCountTooLarge,
    TruncatedFrameLength,
    MalformedFrameLength(Seq<char>),
    FrameLengthTooLarge,
    FrameOffsetOverflow,
    TruncatedFrame,
    MalformedFrame(Seq<char>),
    TrailingBytes,
    InvalidDomain,
    NoncanonicalEcs(Seq<char>),
    PartialEcs(Seq<char>),
    InvalidMessage(Seq<char>, Seq<char>),
    InconsistentEcs(Seq<char>),
    DuplicateKey,
    EntryNotSerializable(Seq<char>),
    SizeOverflow,
    TooLarge { limit: usize, minimum_size: usize },
}

impl View for DumpError {
    type V = DumpErrorView;

    open spec fn view(&self) -> DumpErrorView {
        match self {
            DumpError::TruncatedHeader => DumpErrorView::TruncatedHeader,
            DumpError::MalformedHeader(t) => DumpErrorView::MalformedHeader(t@),
            DumpError::BadMagic => DumpErrorView::BadMagic,
            DumpError::UnsupportedVersion(v) => DumpErrorView::UnsupportedVersion(*v),
            DumpError::MalformedDump(t) => DumpErrorView::MalformedDump(t@),
            DumpError::UnsupportedLegacyVersion(v) => DumpErrorView::UnsupportedLegacyVersion(*v),
            DumpError::TruncatedFramedHeader => DumpErrorView::TruncatedFramedHeader,
            DumpError::MalformedFramedHeader(t) => DumpErrorView::MalformedFramedHeader(t@),
            DumpError::BadFramedMagic => DumpErrorView::BadFramedMagic,
            DumpError::BadFramedVersion(v) => DumpErrorView::BadFramedVersion(*v),
            DumpError::EntryCountTooLarge => DumpErrorView::EntryCountTooLarge,
            DumpError::TruncatedFrameLength => DumpErrorView::TruncatedFrameLength,
            DumpError::MalformedFrameLength(t) => DumpErrorView::MalformedFrameLength(t@),
            DumpError::FrameLengthTooLarge => DumpErrorView::FrameLengthTooLarge,
            DumpError::FrameOffsetOverflow => DumpErrorView::FrameOffsetOverflow,
            DumpError::TruncatedFrame => DumpErrorView::TruncatedFrame,
            DumpError::MalformedFrame(t) => DumpErrorView::MalformedFrame(t@),
            DumpError::TrailingBytes => DumpErrorView::TrailingBytes,
            DumpError::InvalidDomain => DumpErrorView::InvalidDomain,
            DumpError::NoncanonicalEcs(d) => DumpErrorView::NoncanonicalEcs(d@),
            DumpError::PartialEcs(d) => DumpErrorView::PartialEcs(d@),
            DumpError::InvalidMessage(d, t) => DumpErrorView::InvalidMessage(d@, t@),
            DumpError::InconsistentEcs(d) => DumpErrorView::InconsistentEcs(d@),
            DumpError::DuplicateKey => DumpErrorView::DuplicateKey,
            DumpError::EntryNotSerializable(t) => DumpErrorView::EntryNotSerializable(t@),
            DumpError::SizeOverflow => DumpErrorView::SizeOverflow,
            DumpError::TooLarge { limit, minimum_size } => DumpErrorView::TooLarge {
                limit: *limit,
                minimum_size: *minimum_size,
            },
        }
    }
}

/// The error for a dump that cannot be used.
pub fn invalid_dump(message: &str) -> (r: DnsError)
    ensures
        r@ == DnsErrorView::Runtime("invalid cache dump: "@ + message@),
{
    DnsError::runtime(concat("invalid cache dump: ", message).as_str())
}

/// The message on an entry: what is said before and after its domain.
pub open spec fn about_entry(before: Seq<char>, domain: Seq<char>, after: Seq<char>) -> Seq<char> {
    before + domain + after
}

/// The message on a problem.
pub open spec fn problem_text(e: DumpErrorView) -> Seq<char> {
    match e {
        DumpErrorView::TruncatedHeader => "truncated header"@,
        DumpErrorView::MalformedHeader(t) => "failed to deserialize header: "@ + t,
        DumpErrorView::BadMagic => "bad magic or legacy unversioned format"@,
        DumpErrorView::UnsupportedVersion(v) => about_entry(
            "unsupported version "@,
            decimal(v as nat),
            ", expected 1, 2 or 3"@,
        ),
        DumpErrorView::MalformedDump(t) => "failed to deserialize: "@ + t,
        DumpErrorView::UnsupportedLegacyVersion(v) => about_entry(
            "unsupported legacy version "@,
            decimal(v as nat),
            ", expected 1 or 2"@,
        ),
        DumpErrorView::TruncatedFramedHeader => "truncated v3 header"@,
        DumpErrorView::MalformedFramedHeader(t) => "failed to deserialize v3 header: "@ + t,
        DumpErrorView::BadFramedMagic => "bad magic"@,
        DumpErrorView::BadFramedVersion(v) => about_entry(
            "invalid framed dump version "@,
            decimal(v as nat),
            ", expected 3"@,
        ),
        DumpErrorView::EntryCountTooLarge => "entry count exceeds usize"@,
        DumpErrorView::TruncatedFrameLength => "truncated entry frame length"@,
        DumpErrorView::MalformedFrameLength(t) => "failed to deserialize entry frame length: "@ + t,
        DumpErrorView::FrameLengthTooLarge => "entry frame length exceeds usize"@,
        DumpErrorView::FrameOffsetOverflow => "entry frame offset overflow"@,
        DumpErrorView::TruncatedFrame => "truncated entry frame"@,
        DumpErrorView::MalformedFrame(t) => "failed to deserialize entry frame: "@ + t,
        DumpErrorView::TrailingBytes => "trailing bytes after final entry frame"@,
        DumpErrorView::InvalidDomain => "entry contains invalid DNS domain text"@,
        DumpErrorView::NoncanonicalEcs(d) => about_entry(
            "entry for "@,
            d,
            " contains noncanonical ECS metadata"@,
        ),
        DumpErrorView::PartialEcs(d) => about_entry(
            "entry for "@,
            d,
            " contains partial ECS metadata"@,
        ),
        DumpErrorView::InvalidMessage(d, t) => about_entry(
            "failed to parse DNS message for "@,
            d,
            ": "@ + t,
        ),
        DumpErrorView::InconsistentEcs(d) => about_entry(
            "entry for "@,
            d,
            " contains ECS metadata inconsistent with its response"@,
        ),
        DumpErrorView::DuplicateKey => "duplicate canonical cache key"@,
        DumpErrorView::EntryNotSerializable(t) => t,
        DumpErrorView::SizeOverflow => "cache dump serialized size exceeds usize"@,
        DumpErrorView::TooLarge { limit, minimum_size } => about_entry(
            "cache dump too large: requires at least "@,
            decimal(minimum_size as nat),
            about_entry(" bytes, limit is "@, decimal(limit as nat), " bytes"@),
        ),
    }
}

/// Whether a problem keeps a dump from being written.
pub open spec fn prevents_writing(e: DumpErrorView) -> bool {
    match e {
        DumpErrorView::EntryNotSerializable(_) => true,
        DumpErrorView::SizeOverflow => true,
        DumpErrorView::TooLarge { .. } => true,
        _ => false,
    }
}

fn text_about(before: &str, middle: &str, after: &str) -> (r: String)
    ensures
        r@ == about_entry(before@, middle@, after@),
{
    let mut r = before.to_owned();
    push_text(&mut r, middle);
    push_text(&mut r, after);
    r
}

impl DumpError {
    /// The message on the problem.
    pub fn message(&self) -> (r: String)
        ensures
            r@ == problem_text(self@),
    {
        match self {
            DumpError::TruncatedHeader => "truncated header".to_owned(),
            DumpError::MalformedHeader(t) => concat("failed to deserialize header: ", t.as_str()),
            DumpError::BadMagic => "bad magic or legacy unversioned format".to_owned(),
            DumpError::UnsupportedVersion(v) => text_about(
                "unsupported version ",
                decimal_of(*v as u64).as_str(),
                ", expected 1, 2 or 3",
            ),
            DumpError::MalformedDump(t) => concat("failed to deserialize: ", t.as_str()),
            DumpError::UnsupportedLegacyVersion(v) => text_about(
                "unsupported legacy version ",
                decimal_of(*v as u64).as_str(),
                ", expected 1 or 2",
            ),
            DumpError::TruncatedFramedHeader => "truncated v3 header".to_owned(),
            DumpError::MalformedFramedHeader(t) => concat(
                "failed to deserialize v3 header: ",
                t.as_str(),
            ),
            DumpError::BadFramedMagic => "bad magic".to_owned(),
            DumpError::BadFramedVersion(v) => text_about(
                "invalid framed dump version ",
                decimal_of(*v as u64).as_str(),
                ", expected 3",
            ),
            DumpError::EntryCountTooLarge => "entry count exceeds usize".to_owned(),
            DumpError::TruncatedFrameLength => "truncated entry frame length".to_owned(),
            DumpError::MalformedFrameLength(t) => concat(
                "failed to deserialize entry frame length: ",
                t.as_str(),
            ),
            DumpError::FrameLengthTooLarge => "entry frame length exceeds usize".to_owned(),
            DumpError::FrameOffsetOverflow => "entry frame offset overflow".to_owned(),
            DumpError::TruncatedFrame => "truncated entry frame".to_owned(),
            DumpError::MalformedFrame(t) => concat(
                "failed to deserialize entry frame: ",
                t.as_str(),
            ),
            DumpError::TrailingBytes => "trailing bytes after final entry frame".to_owned(),
            DumpError::InvalidDomain => "entry contains invalid DNS domain text".to_owned(),
            DumpError::NoncanonicalEcs(d) => text_about(
                "entry for ",
                d.as_str(),
                " contains noncanonical ECS metadata",
            ),
            DumpError::PartialEcs(d) => text_about(
                "entry for ",
                d.as_str(),
                " contains partial ECS metadata",
            ),
            DumpError::InvalidMessage(d, t) => text_about(
                "failed to parse DNS message for ",
                d.as_str(),
                concat(": ", t.as_str()).as_str(),
            ),
            DumpError::InconsistentEcs(d) => text_about(
                "entry for ",
                d.as_str(),
                " contains ECS metadata inconsistent with its response",
            ),
            DumpError::DuplicateKey => "duplicate canonical cache key".to_owned(),
            DumpError::EntryNotSerializable(t) => t.clone(),
            DumpError::SizeOverflow => "cache dump serialized size exceeds usize".to_owned(),
            DumpError::TooLarge { limit, minimum_size } => text_about(
                "cache dump too large: requires at least ",
                decimal_of(*minimum_size as u64).as_str(),
                text_about(
                    " bytes, limit is ",
                    decimal_of(*limit as u64).as_str(),
                    " bytes",
                ).as_str(),
            ),
        }
    }

    /// The error to report. What keeps a dump from being written is not said of a dump
    /// that is there.
    pub fn to_error(&self) -> (r: DnsError)
        ensures
            r@ == DnsErrorView::Runtime(
                if prevents_writing(self@) {
                    problem_text(self@)
                } else {
                    "invalid cache dump: "@ + problem_text(self@)
                },
            ),
    {
        let message = self.message();
        match self {
            DumpError::EntryNotSerializable(_) => DnsError::runtime(message.as_str()),
            DumpError::SizeOverflow => DnsError::runtime(message.as_str()),
            DumpError::TooLarge { .. } => DnsError::runtime(message.as_str()),
            _ => invalid_dump(message.as_str()),
        }
    }
}

/// A number of octets as a size in memory.
pub fn serialized_size_to_usize(size: u64) -> (r: Result<usize, DumpError>)
    ensures
        match r {
            Ok(n) => n == size,
            Err(e) => size > usize::MAX && e@ == DumpErrorView::SizeOverflow,
        },
{
    if size > usize::MAX as u64 {
        return Err(DumpError::SizeOverflow);
    }
    Ok(size as usize)
}

} // verus!
