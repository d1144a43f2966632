//! What a request's headers say: where the request came from, and under which
//! address the service was reached. And how the answer is marked in the log.
//!
//! The functions take header values as text; reading them off a request is
//! the caller's part.

use vstd::prelude::*;
use vstd::string::{StrSliceExecFns, StringExecFns};

verus! {

/// Whether a character is white space, as Unicode defines it.
pub open spec fn is_space(c: char) -> bool {
    let code = c as u32;
    ||| 0x09 <= code <= 0x0D
    ||| code == 0x20
    ||| code == 0x85
    ||| code == 0xA0
    ||| code == 0x1680
    ||| 0x2000 <= code <= 0x200A
    ||| code == 0x2028
    ||| code == 0x2029
    ||| code == 0x202F
    ||| code == 0x205F
    ||| code == 0x3000
}

/// How many characters stand before the first comma of `text`; all of them
/// where it has no comma.
pub open spec fn piece_len(text: Seq<char>) -> int
    decreases text.len(),
{
    if text.len() == 0 || text[0] == ',' {
        0
    } else {
        1 + piece_len(text.drop_first())
    }
}

/// The first of the pieces that commas divide `text` into.
pub open spec fn first_piece(text: Seq<char>) -> Seq<char> {
    text.take(piece_len(text))
}

/// How many white-space characters `text` begins with.
pub open spec fn leading_spaces(text: Seq<char>) -> int
    decreases text.len(),
{
    if text.len() == 0 || !is_space(text[0]) {
        0
    } else {
        1 + leading_spaces(text.drop_first())
    }
}

/// How many white-space characters `text` ends with.
pub open spec fn trailing_spaces(text: Seq<char>) -> int
    decreases text.len(),
{
    if text.len() == 0 || !is_space(text.last()) {
        0
    } else {
        1 + trailing_spaces(text.drop_last())
    }
}

/// `text` without the white space at its start.
pub open spec fn trimmed_start(text: Seq<char>) -> Seq<char> {
    text.skip(leading_spaces(text))
}

/// `text` without the white space at its start and at its end.
pub open spec fn trimmed(text: Seq<char>) -> Seq<char> {
    let rest = trimmed_start(text);
    rest.take(rest.len() - trailing_spaces(rest))
}

/// The client that an `x-forwarded-for` header names: the first entry of its
/// list, trimmed, unless that is empty.
pub open spec fn forwarded_client(header: Option<Seq<char>>) -> Option<Seq<char>> {
    match header {
        Some(text) => if trimmed(first_piece(text)).len() > 0 {
            Some(trimmed(first_piece(text)))
        } else {
            None
        },
        None => None,
    }
}

/// The first of a chain of optional texts that is present, or else `fallback`.
pub open spec fn first_present(
    first: Option<Seq<char>>,
    second: Option<Seq<char>>,
    third: Option<Seq<char>>,
    fourth: Option<Seq<char>>,
    fallback: Seq<char>,
) -> Seq<char> {
    match first {
        Some(text) => text,
        None => match second {
            Some(text) => text,
            None => match third {
                Some(text) => text,
                None => match fourth {
                    Some(text) => text,
                    None => fallback,
                },
            },
        },
    }
}

/// The address of the client, as the headers give it: the client that
/// `x-forwarded-for` names, or else the value of `x-real-ip`, of
/// `cf-connecting-ip`, of `x-client-ip`, or else `Unknown`.
pub open spec fn client_ip_of(
    forwarded_for: Option<Seq<char>>,
    real_ip: Option<Seq<char>>,
    connecting_ip: Option<Seq<char>>,
    client_ip: Option<Seq<char>>,
) -> Seq<char> {
    first_present(
        forwarded_client(forwarded_for),
        real_ip,
        connecting_ip,
        client_ip,
        "Unknown"@,
    )
}

/// A text that may be absent, by its characters.
pub open spec fn text_view(text: Option<&str>) -> Option<Seq<char>> {
    match text {
        Some(text) => Some(text@),
        None => None,
    }
}

/// The address under which a share's page is reached.
pub open spec fn share_url_of(protocol: Option<Seq<char>>, host: Option<Seq<char>>, id: Seq<char>) -> Seq<
    char,
> {
    let protocol = match protocol {
        Some(text) => text,
        None => "https"@,
    };
    let host = match host {
        Some(text) => text,
        None => "localhost:3000"@,
    };
    protocol + "://"@ + host + "/share/"@ + id
}

/// A count of characters from the start, before which no comma stands and at
/// which a comma stands or the text ends, is the length of the first piece.
pub proof fn lemma_piece_len(text: Seq<char>, count: int)
    requires
        0 <= count <= text.len(),
        forall|j: int| 0 <= j < count ==> text[j] != ',',
        count == text.len() || text[count] == ',',
    ensures
        piece_len(text) == count,
    decreases text.len(),
{
    if count > 0 {
        assert(text[0] != ',');
        assert forall|j: int| 0 <= j < count - 1 implies text.drop_first()[j] != ',' by {
            assert(text.drop_first()[j] == text[j + 1]);
        }
        lemma_piece_len(text.drop_first(), count - 1);
    }
}

/// A count of characters from the start, all white space, at which the text
/// ends or goes on with something else, is the number of leading spaces.
pub proof fn lemma_leading_spaces(text: Seq<char>, count: int)
    requires
        0 <= count <= text.len(),
        forall|j: int| 0 <= j < count ==> is_space(text[j]),
        count == text.len() || !is_space(text[count]),
    ensures
        leading_spaces(text) == count,
    decreases text.len(),
{
    if count > 0 {
        assert(is_space(text[0]));
        assert forall|j: int| 0 <= j < count - 1 implies is_space(text.drop_first()[j]) by {
            assert(text.drop_first()[j] == text[j + 1]);
        }
        lemma_leading_spaces(text.drop_first(), count - 1);
    }
}

/// A count of characters from the end, all white space, before which the text
/// begins or something else stands, is the number of trailing spaces.
pub proof fn lemma_trailing_spaces(text: Seq<char>, count: int)
    requires
        0 <= count <= text.len(),
        forall|j: int| text.len() - count <= j < text.len() ==> is_space(text[j]),
        count == text.len() || !is_space(text[text.len() - count - 1]),
    ensures
        trailing_spaces(text) == count,
    decreases text.len(),
{
    if count > 0 {
        assert(is_space(text[text.len() - 1]));
        assert forall|j: int|
            text.drop_last().len() - (count - 1) <= j < text.drop_last().len() implies is_space(
            text.drop_last()[j],
        ) by {
            assert(text.drop_last()[j] == text[j]);
        }
        lemma_trailing_spaces(text.drop_last(), count - 1);
    }
}

fn space(c: char) -> (yes: bool)
    ensures
        yes == is_space(c),
{
    let code: u32 = c as u32;
    (0x09 <= code && code <= 0x0D) || code == 0x20 || code == 0x85 || code == 0xA0 || code
        == 0x1680 || (0x2000 <= code && code <= 0x200A) || code == 0x2028 || code == 0x2029
        || code == 0x202F || code == 0x205F || code == 0x3000
}

/// The first of the pieces that commas divide `text` into.
pub fn leading_piece(text: &str) -> (piece: &str)
    ensures
        piece@ == first_piece(text@),
{
    let len = text.unicode_len();
    let mut end: usize = 0;
    let mut scanning = true;
    while scanning && end < len
        invariant
            len == text@.len(),
            end <= len,
            forall|j: int| 0 <= j < end ==> text@[j] != ',',
            !scanning ==> end < len && text@[end as int] == ',',
        decreases len - end + (if scanning { 1int } else { 0int }),
    {
        if text.get_char(end) == ',' {
            scanning = false;
        } else {
            end += 1;
        }
    }
    proof {
        lemma_piece_len(text@, end as int);
    }
    text.substring_char(0, end)
}

/// `text` without the white space at its start and at its end.
pub fn trim(text: &str) -> (rest: &str)
    ensures
        rest@ == trimmed(text@),
{
    let len = text.unicode_len();
    let mut start: usize = 0;
    let mut scanning = true;
    while scanning && start < len
        invariant
            len == text@.len(),
            start <= len,
            forall|j: int| 0 <= j < start ==> is_space(text@[j]),
            !scanning ==> start < len && !is_space(text@[start as int]),
        decreases len - start + (if scanning { 1int } else { 0int }),
    {
        if space(text.get_char(start)) {
            start += 1;
        } else {
            scanning = false;
        }
    }
    proof {
        lemma_leading_spaces(text@, start as int);
    }
    let ghost rest = text@.skip(start as int);
    let mut end: usize = len;
    scanning = true;
    while scanning && end > start
        invariant
            len == text@.len(),
            start <= end <= len,
            rest == text@.skip(start as int),
            forall|j: int| end <= j < len ==> is_space(text@[j]),
            !scanning ==> end > start && !is_space(text@[end - 1]),
        decreases end - start + (if scanning { 1int } else { 0int }),
    {
        if space(text.get_char(end - 1)) {
            end -= 1;
        } else {
            scanning = false;
        }
    }
    proof {
        assert forall|j: int| rest.len() - (len - end) <= j < rest.len() implies is_space(
            rest[j],
        ) by {
            assert(rest[j] == text@[j + start]);
        }
        if end > start {
            assert(rest[end - start - 1] == text@[end - 1]);
        }
        lemma_trailing_spaces(rest, len - end);
        assert(text@.subrange(start as int, end as int) =~= rest.take(
            rest.len() - trailing_spaces(rest),
        ));
    }
    text.substring_char(start, end)
}

/// The address of the client, from the values of the headers
/// `x-forwarded-for`, `x-real-ip`, `cf-connecting-ip` and `x-client-ip`, each
/// as far as the request has it.
pub fn get_client_ip(
    forwarded_for: Option<&str>,
    real_ip: Option<&str>,
    connecting_ip: Option<&str>,
    client_ip: Option<&str>,
) -> (address: String)
    ensures
        address@ == client_ip_of(
            text_view(forwarded_for),
            text_view(real_ip),
            text_view(connecting_ip),
            text_view(client_ip),
        ),
{
    let forwarded = match forwarded_for {
        Some(list) => {
            let first = trim(leading_piece(list));
            if first.unicode_len() > 0 {
                Some(first)
            } else {
                None
            }
        },
        None => None,
    };
    let found = match forwarded {
        Some(text) => Some(text),
        None => match real_ip {
            Some(text) => Some(text),
            None => match connecting_ip {
                Some(text) => Some(text),
                None => client_ip,
            },
        },
    };
    match found {
        Some(text) => String::from_str(text),
        None => String::from_str("Unknown"),
    }
}

/// The address of the page of the share `id`: the protocol and the host under
/// which the service was reached, `https` and `localhost:3000` where the
/// request does not say, and the page's path.
pub fn share_url(protocol: Option<&str>, host: Option<&str>, id: &str) -> (url: String)
    ensures
        url@ == share_url_of(text_view(protocol), text_view(host), id@),
{
    let protocol = match protocol {
        Some(text) => text,
        None => "https",
    };
    let host = match host {
        Some(text) => text,
        None => "localhost:3000",
    };
    let mut url = String::from_str(protocol);
    url.append("://");
    url.append(host);
    url.append("/share/");
    url.append(id);
    url
}

/// How loudly an answer is logged.
#[derive(Debug, Clone, Copy, PartialEq, Eq, Structural)]
pub enum LogLevel {
    Info,
    Warn,
    Error,
}

/// The level at which an answer with the status code `status` is logged:
/// client errors as warnings, server errors as errors, all else as
/// information.
pub open spec fn level_of(status: u16) -> LogLevel {
    if 400 <= status <= 499 {
        LogLevel::Warn
    } else if 500 <= status <= 599 {
        LogLevel::Error
    } else {
        LogLevel::Info
    }
}

/// The sign that marks an answer with the status code `status` in the log.
pub open spec fn icon_of(status: u16) -> Seq<char> {
    if 200 <= status <= 299 {
        "✅"@
    } else if 300 <= status <= 399 {
        "🔄"@
    } else if 400 <= status <= 499 {
        "⚠️"@
    } else if 500 <= status <= 599 {
        "❌"@
    } else {
        "❓"@
    }
}

/// The sign and the level with which an answer is logged.
pub fn log_mark(status: u16) -> (mark: (&'static str, LogLevel))
    ensures
        mark.0@ == icon_of(status),
        mark.1 == level_of(status),
{
    if 200 <= status && status <= 299 {
        ("✅", LogLevel::Info)
    } else if 300 <= status && status <= 399 {
        ("🔄", LogLevel::Info)
    } else if 400 <= status && status <= 499 {
        ("⚠️", LogLevel::Warn)
    } else if 500 <= status && status <= 599 {
        ("❌", LogLevel::Error)
    } else {
        ("❓", LogLevel::Info)
    }
}

} // verus!
