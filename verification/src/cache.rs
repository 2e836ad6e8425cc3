//! The decisions of the HTTP file cache: reading the record kept for a
//! cached file, whether the cached copy can be served, and the status, etag
//! and content length of the answer.
use crate::error::{CoreErrorKind, Error};
use crate::ser::be_read;
use crate::text::{decimal, to_decimal};
use vstd::prelude::*;

verus! {

/// What the cache keeps at the start of a cached file's entry: the file's
/// length, its modification time and mime type code, and when it was last
/// checked on disk (times in milliseconds).
#[derive(Clone, Copy, Debug, PartialEq, Eq, Structural)]
pub struct CacheRecord {
    pub len: usize,
    pub last_modified: u64,
    pub mime_code: u32,
    pub last_check: u64,
}

/// The record held by the first 28 bytes of `data`: four big-endian fields
/// of 8, 8, 4 and 8 bytes; `None` when the length does not fit a `usize`.
pub open spec fn cache_record_spec(data: Seq<u8>) -> Option<CacheRecord> {
    let len = crate::ser::be_value(data.subrange(0, 8));
    if len > usize::MAX {
        None
    } else {
        Some(
            CacheRecord {
                len: len as usize,
                last_modified: crate::ser::be_value(data.subrange(8, 16)) as u64,
                mime_code: crate::ser::be_value(data.subrange(16, 20)) as u32,
                last_check: crate::ser::be_value(data.subrange(20, 28)) as u64,
            },
        )
    }
}

/// Reads the record of a cached file (see `cache_record_spec`).
pub fn parse_cache_record(data: &[u8]) -> (r: Option<CacheRecord>)
    requires
        data@.len() >= 28,
    ensures
        r == cache_record_spec(data@),
{
    let len = be_read(data, 0, 8);
    let last_modified = be_read(data, 8, 8);
    let mime_code = be_read(data, 16, 4);
    let last_check = be_read(data, 20, 8);
    proof {
        crate::ser::lemma_be_value_bound(data@.subrange(8, 16));
        crate::ser::lemma_be_value_bound(data@.subrange(16, 20));
        crate::ser::lemma_be_value_bound(data@.subrange(20, 28));
        crate::ser::lemma_pow256_values();
    }
    if len > usize::MAX as u128 {
        return None;
    }
    Some(
        CacheRecord {
            len: len as usize,
            last_modified: last_modified as u64,
            mime_code: mime_code as u32,
            last_check: last_check as u64,
        },
    )
}

/// The bytes of a cache entry before the file's content: the record.
pub const CACHE_RECORD_LEN: usize = 28;

/// A block of a cached file's content, as it is read from the entry: where
/// it starts in the entry, how many of its bytes are content, and how many
/// bytes of content come before it.
#[derive(Clone, Copy, Debug, PartialEq, Eq, Structural)]
pub struct CacheBlock {
    pub offset: usize,
    pub len: usize,
    pub before: usize,
}

/// The blocks of `size` bytes in which a content of `len` bytes is read,
/// from the one holding byte `before` on: full blocks, then one holding the
/// rest (a single empty block for an empty content).
pub open spec fn blocks_from(len: nat, size: nat, before: nat) -> Seq<CacheBlock>
    decreases len - before,
{
    if size == 0 || before + size >= len {
        seq![CacheBlock { offset: (28 + before) as usize, len: (len - before) as usize, before: before as usize }]
    } else {
        seq![CacheBlock { offset: (28 + before) as usize, len: size as usize, before: before as usize }]
            + blocks_from(len, size, before + size)
    }
}

/// The blocks in which the content of a cached file of `len` bytes is read
/// and sent, with a buffer of `buffer_size` bytes (see `blocks_from`).
pub fn cache_blocks(len: usize, buffer_size: usize) -> (r: Vec<CacheBlock>)
    requires
        buffer_size > 0,
        len + buffer_size + 28 <= usize::MAX,
    ensures
        r@ == blocks_from(len as nat, buffer_size as nat, 0),
{
    let mut out: Vec<CacheBlock> = Vec::new();
    let mut before: usize = 0;
    loop
        invariant_except_break
            before <= len,
            out@ + blocks_from(len as nat, buffer_size as nat, before as nat) == blocks_from(
                len as nat,
                buffer_size as nat,
                0,
            ),
        invariant
            buffer_size > 0,
            len + buffer_size + 28 <= usize::MAX,
        ensures
            out@ == blocks_from(len as nat, buffer_size as nat, 0),
        decreases len - before,
    {
        if before + buffer_size >= len {
            let ghost rest = blocks_from(len as nat, buffer_size as nat, before as nat);
            out.push(CacheBlock { offset: CACHE_RECORD_LEN + before, len: len - before, before });
            assert(out@ =~= blocks_from(len as nat, buffer_size as nat, 0)) by {
                assert(rest =~= seq![CacheBlock { offset: (28 + before) as usize, len: (len - before) as usize, before }]);
            }
            break;
        }
        let ghost before_out = out@;
        out.push(CacheBlock { offset: CACHE_RECORD_LEN + before, len: buffer_size, before });
        assert(out@ + blocks_from(len as nat, buffer_size as nat, (before + buffer_size) as nat) =~= before_out
            + blocks_from(len as nat, buffer_size as nat, before as nat));
        before = before + buffer_size;
    }
    out
}

/// What looking a file up in the cache gave.
#[derive(Clone, Copy, Debug, PartialEq, Eq, Structural)]
pub enum CacheStreamResult {
    /// The file is not cached.
    Miss,
    /// The cached copy is served.
    Hit,
    /// The file changed on disk (or could not be checked): read it again.
    Modified,
    /// The file was checked on disk and did not change: the copy is served.
    NotModified,
}

/// Whether the cached copy `rec` (if any) can be served at time `now`: a
/// copy checked on disk more than `restat_millis` ago is compared with the
/// file's modification time `mtime` (`None` when it could not be read).
pub open spec fn cache_decision_spec(rec: Option<CacheRecord>, now: u64, restat_millis: u64, mtime: Option<u64>) -> CacheStreamResult {
    match rec {
        None => CacheStreamResult::Miss,
        Some(r) => {
            let diff: int = if now >= r.last_check {
                now - r.last_check
            } else {
                0
            };
            if diff > restat_millis {
                match mtime {
                    None => CacheStreamResult::Modified,
                    Some(m) => if m != r.last_modified {
                        CacheStreamResult::Modified
                    } else {
                        CacheStreamResult::NotModified
                    },
                }
            } else {
                CacheStreamResult::Hit
            }
        },
    }
}

/// Decides how a cached file is served (see `cache_decision_spec`).
pub fn cache_decision(rec: Option<CacheRecord>, now: u64, restat_millis: u64, mtime: Option<u64>) -> (r:
    CacheStreamResult)
    ensures
        r == cache_decision_spec(rec, now, restat_millis, mtime),
{
    match rec {
        None => CacheStreamResult::Miss,
        Some(r) => {
            let diff = now.saturating_sub(r.last_check);
            if diff > restat_millis {
                match mtime {
                    None => CacheStreamResult::Modified,
                    Some(m) => if m != r.last_modified {
                        CacheStreamResult::Modified
                    } else {
                        CacheStreamResult::NotModified
                    },
                }
            } else {
                CacheStreamResult::Hit
            }
        },
    }
}

/// What `chrono::DateTime::parse_from_rfc2822` makes of `s`, as
/// milliseconds since the epoch (`timestamp_millis`); `None` when `s` is
/// not an RFC 2822 date.
pub uninterp spec fn rfc2822_millis_of(s: Seq<char>) -> Option<i64>;

/// `chrono::DateTime::parse_from_rfc2822` followed by `timestamp_millis`.
/// The result is named by `rfc2822_millis_of`.
#[verifier::external_body]
fn rfc2822_millis(s: &str) -> (r: Option<i64>)
    ensures
        r == rfc2822_millis_of(s@),
{
    match chrono::DateTime::parse_from_rfc2822(s) {
        Ok(d) => Some(d.timestamp_millis()),
        Err(_) => None,
    }
}

/// The lower-case hexadecimal digit of `d` (below 16).
pub open spec fn hex_lower_digit(d: nat) -> char {
    if d < 10 {
        (48 + d) as char
    } else {
        (87 + d) as char
    }
}

/// The lower-case hexadecimal digits of `n`, without leading zeros.
pub open spec fn hex_lower(n: nat) -> Seq<char>
    decreases n,
{
    if n < 16 {
        seq![hex_lower_digit(n)]
    } else {
        hex_lower(n / 16).push(hex_lower_digit(n % 16))
    }
}

fn push_hex_lower(out: &mut String, n: usize)
    ensures
        final(out)@ == old(out)@ + hex_lower(n as nat),
    decreases n,
{
    if n >= 16 {
        push_hex_lower(out, n / 16);
    }
    let d = n % 16;
    let s = if d == 0 {
        "0"
    } else if d == 1 {
        "1"
    } else if d == 2 {
        "2"
    } else if d == 3 {
        "3"
    } else if d == 4 {
        "4"
    } else if d == 5 {
        "5"
    } else if d == 6 {
        "6"
    } else if d == 7 {
        "7"
    } else if d == 8 {
        "8"
    } else if d == 9 {
        "9"
    } else if d == 10 {
        "a"
    } else if d == 11 {
        "b"
    } else if d == 12 {
        "c"
    } else if d == 13 {
        "d"
    } else if d == 14 {
        "e"
    } else {
        "f"
    };
    proof {
        reveal_strlit("0");
        reveal_strlit("1");
        reveal_strlit("2");
        reveal_strlit("3");
        reveal_strlit("4");
        reveal_strlit("5");
        reveal_strlit("6");
        reveal_strlit("7");
        reveal_strlit("8");
        reveal_strlit("9");
        reveal_strlit("a");
        reveal_strlit("b");
        reveal_strlit("c");
        reveal_strlit("d");
        reveal_strlit("e");
        reveal_strlit("f");
    }
    assert(s@ =~= seq![hex_lower_digit(d as nat)]);
    out.append(s);
    assert(final(out)@ =~= old(out)@ + hex_lower(n as nat));
}

/// How a cached file is answered: the status and its text, the etag, the
/// length of the content sent, whether the content is sent, and whether the
/// chunked body is ended with the final chunk.
#[derive(Debug)]
pub struct CachePlan {
    pub code: u16,
    pub message: String,
    pub etag: String,
    pub content_len: usize,
    pub send_content: bool,
    pub end_chunks: bool,
}

/// The content length of a range of the file: the range cut at the end of
/// the file.
pub open spec fn range_content_len(len: usize, range_start: usize, range_end: usize) -> nat {
    let end: int = if range_end > len {
        len as int
    } else {
        range_end as int
    };
    if end >= range_start {
        (end - range_start) as nat
    } else {
        0
    }
}

/// The etag of a cached file: its modification time in decimal, a dash, and
/// the content length in lower-case hexadecimal.
pub open spec fn etag_spec(last_modified: u64, content_len: nat) -> Seq<char> {
    decimal(last_modified as nat) + "-"@ + hex_lower(content_len)
}

/// The time the `If-Modified-Since` value `ims` gives, in milliseconds: a
/// value that is not an RFC 2822 date counts as one minute and one second
/// after the epoch.
pub open spec fn modified_since_spec(ims: Seq<char>) -> int {
    match rfc2822_millis_of(ims) {
        Some(m) => m as int,
        None => 61000,
    }
}

/// How the cached file `rec` is answered for a request with the byte range
/// `range_start`..`range_end` (`has_range` when the request asked for one)
/// and the `If-None-Match` and `If-Modified-Since` values given, the answer
/// being `code` otherwise. The file is not modified, and the answer is 304,
/// when the etag matches or the file is older than the date given; a range
/// is answered 206. The content is sent unless the answer is 304, and the
/// chunked body ends with the final chunk unless a range was asked for.
/// `None` when the etag does not match and the date given is before the
/// epoch (a `TryInto` error).
pub open spec fn plan_spec(
    rec: CacheRecord,
    range_start: usize,
    range_end: usize,
    has_range: bool,
    if_none_match: Seq<char>,
    if_modified_since: Seq<char>,
    code: u16,
    message: Seq<char>,
) -> Option<(u16, Seq<char>, Seq<char>, nat, bool, bool)> {
    let clen = range_content_len(rec.len, range_start, range_end);
    let etag = etag_spec(rec.last_modified, clen);
    let since = modified_since_spec(if_modified_since);
    if etag != if_none_match && since < 0 {
        None
    } else {
        let not_modified = etag == if_none_match || rec.last_modified < since;
        let c: u16 = if not_modified {
            304
        } else {
            code
        };
        let m = if not_modified {
            "Not Modified"@
        } else {
            message
        };
        Some(
            (
                if has_range {
                    206
                } else {
                    c
                },
                if has_range {
                    "Partial Content"@
                } else {
                    m
                },
                etag,
                clen,
                c != 304,
                !has_range,
            ),
        )
    }
}

/// The answer to a request for the cached file `rec` (see `plan_spec`); a
/// date before the epoch is a `TryInto` error.
pub fn cached_response_plan(
    rec: &CacheRecord,
    range_start: usize,
    range_end: usize,
    has_range: bool,
    if_none_match: &str,
    if_modified_since: &str,
    code: u16,
    message: &str,
) -> (r: Result<CachePlan, Error>)
    ensures
        match plan_spec(
            *rec,
            range_start,
            range_end,
            has_range,
            if_none_match@,
            if_modified_since@,
            code,
            message@,
        ) {
            Some((c, m, e, l, send, end)) => r matches Ok(p) && p.code == c && p.message@ == m && p.etag@ == e
                && p.content_len == l && p.send_content == send && p.end_chunks == end,
            None => r matches Err(e) && e.spec_kind() matches crate::error::ErrKind::Core(
                CoreErrorKind::TryInto(_),
            ),
        },
{
    let range_end_content = if range_end > rec.len {
        rec.len
    } else {
        range_end
    };
    let content_len = range_end_content.saturating_sub(range_start);
    let mut etag = to_decimal(rec.last_modified);
    etag.append("-");
    push_hex_lower(&mut etag, content_len);
    let since: i64 = match rfc2822_millis(if_modified_since) {
        Some(m) => m,
        None => 61000,
    };
    let etag_matches = crate::text::str_equals(etag.as_str(), if_none_match);
    let not_modified = if etag_matches {
        true
    } else {
        if since < 0 {
            return Err(
                Error::base(CoreErrorKind::TryInto(String::from_str("out of range integral type conversion attempted"))),
            );
        }
        rec.last_modified < since as u64
    };
    let mut c = code;
    let mut m = String::from_str(message);
    if not_modified {
        c = 304;
        m = String::from_str("Not Modified");
    }
    let (out_code, out_message) = if has_range {
        (206u16, String::from_str("Partial Content"))
    } else {
        (c, m)
    };
    proof {
        reveal_strlit("-");
    }
    Ok(
        CachePlan {
            code: out_code,
            message: out_message,
            etag,
            content_len,
            send_content: c != 304,
            end_chunks: !has_range,
        },
    )
}

/// The conditional headers decide a cached file's answer: when the etag
/// given matches, the answer is 304 and no content is sent; when it does not
/// and `If-Modified-Since` is a date (at or after the epoch, `since`
/// milliseconds), the answer is 304 without content exactly when the file
/// was modified strictly before that time, and otherwise it is the caller's
/// `code` and `message`, with the content unless that code is itself 304. A
/// range turns the status into 206.
pub proof fn law_conditional_answer(
    rec: CacheRecord,
    range_start: usize,
    range_end: usize,
    has_range: bool,
    if_none_match: Seq<char>,
    if_modified_since: Seq<char>,
    code: u16,
    message: Seq<char>,
)
    ensures
        ({
            let etag = decimal(rec.last_modified as nat) + "-"@ + hex_lower(
                range_content_len(rec.len, range_start, range_end),
            );
            let p = plan_spec(
                rec,
                range_start,
                range_end,
                has_range,
                if_none_match,
                if_modified_since,
                code,
                message,
            );
            let since = rfc2822_millis_of(if_modified_since)->0;
            let older = rec.last_modified < since;
            let (c, m, _tag, _len, send, _end) = p->0;
            &&& etag == if_none_match ==> (p is Some && !send && (!has_range ==> c == 304 && m
                == "Not Modified"@))
            &&& (etag != if_none_match && rfc2822_millis_of(if_modified_since) is Some && since >= 0) ==> (p is Some
                && (send <==> !older && code != 304) && (!has_range ==> c == (if older {
                304u16
            } else {
                code
            }) && m == (if older {
                "Not Modified"@
            } else {
                message
            })) && (has_range ==> c == 206))
        }),
{
}

} // verus!
