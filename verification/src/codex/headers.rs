//! The headers of a request to the Responses backend.
use vstd::prelude::*;

verus! {

/// The version that this client gives itself.
pub const VERSION: &'static str = "0.1.0";

/// Names and values of headers.
pub type HeaderList = Seq<(Seq<char>, Seq<char>)>;

/// Headers with their texts as sequences of characters.
pub open spec fn header_texts(v: Seq<(String, String)>) -> HeaderList {
    v.map_values(|h: (String, String)| (h.0@, h.1@))
}

/// The headers of every request.
pub open spec fn fixed_headers(access_token: Seq<char>) -> HeaderList {
    seq![
        ("content-type"@, "application/json"@),
        ("accept"@, "text/event-stream"@),
        ("authorization"@, "Bearer "@ + access_token),
        ("originator"@, "llmtrim"@),
        ("openai-beta"@, "responses=experimental"@),
        ("user-agent"@, "llmtrim/"@ + VERSION@),
    ]
}

/// The header of a known account.
pub open spec fn account_headers(account_id: Option<Seq<char>>) -> HeaderList {
    match account_id {
        Some(acc) => seq![("ChatGPT-Account-Id"@, acc)],
        None => Seq::empty(),
    }
}

/// The headers of a known session.
pub open spec fn session_headers(session_id: Option<Seq<char>>) -> HeaderList {
    match session_id {
        Some(sid) => seq![
            ("session_id"@, sid),
            ("x-client-request-id"@, sid),
            ("x-codex-window-id"@, sid + ":0"@),
        ],
        None => Seq::empty(),
    }
}

fn header(list: &mut Vec<(String, String)>, name: &str, value: &str)
    ensures
        header_texts(final(list)@) == header_texts(old(list)@).push((name@, value@)),
{
    list.push((name.to_owned(), value.to_owned()));
    assert(header_texts(list@) =~= header_texts(old(list)@).push((name@, value@)));
}

fn joined(a: &str, b: &str) -> (r: String)
    ensures
        r@ == a@ + b@,
{
    let mut out = a.to_owned();
    out.append(b);
    out
}

/// Headers to set on the rewritten upstream request.
pub fn request_headers(access_token: &str, account_id: Option<&str>, session_id: Option<&str>) -> (r:
    Vec<(String, String)>)
    ensures
        header_texts(r@) == fixed_headers(access_token@) + account_headers(
            match account_id {
                Some(acc) => Some(acc@),
                None => None,
            },
        ) + session_headers(
            match session_id {
                Some(sid) => Some(sid@),
                None => None,
            },
        ),
{
    let mut list: Vec<(String, String)> = Vec::new();
    assert(header_texts(list@) =~= HeaderList::empty());
    header(&mut list, "content-type", "application/json");
    header(&mut list, "accept", "text/event-stream");
    header(&mut list, "authorization", joined("Bearer ", access_token).as_str());
    header(&mut list, "originator", "llmtrim");
    header(&mut list, "openai-beta", "responses=experimental");
    header(&mut list, "user-agent", joined("llmtrim/", VERSION).as_str());
    let ghost fixed = header_texts(list@);
    assert(fixed =~= fixed_headers(access_token@));
    match account_id {
        Some(acc) => header(&mut list, "ChatGPT-Account-Id", acc),
        None => {},
    }
    let ghost known = header_texts(list@);
    assert(known =~= fixed + account_headers(
        match account_id {
            Some(acc) => Some(acc@),
            None => None,
        },
    ));
    match session_id {
        Some(sid) => {
            header(&mut list, "session_id", sid);
            header(&mut list, "x-client-request-id", sid);
            header(&mut list, "x-codex-window-id", joined(sid, ":0").as_str());
        },
        None => {},
    }
    assert(header_texts(list@) =~= known + session_headers(
        match session_id {
            Some(sid) => Some(sid@),
            None => None,
        },
    ));
    list
}

} // verus!
