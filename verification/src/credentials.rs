use vstd::prelude::*;

use crate::errors::SxtError;
use crate::identity::{line_text_ok, Identity, IdentityView, Keypair, KeypairView};
use crate::strutil::{
    find_char, first_index, has_prefix, is_prefix, lemma_first_index_concat,
    lemma_first_index_props, lemma_no_char_concat, no_char, substring_copy,
};

verus! {

/// One `KEY=value` line, newline-terminated.
pub open spec fn render_line(key: Seq<char>, value: Seq<char>) -> Seq<char> {
    key + "="@ + value + "\n"@
}

/// The persisted text of an identity and, when one is cached, its session
/// token: one `KEY=value` line per field.
pub open spec fn render_credentials(id: IdentityView, token: Option<Seq<char>>) -> Seq<char> {
    render_line("SUBSCRIPTION_ID"@, id.subscription_id) + render_line(
        "PRIVATE_KEY"@,
        id.keypair.private_key,
    ) + render_line("PUBLIC_KEY"@, id.keypair.public_key) + match token {
        Some(t) => render_line("SESSION_TOKEN"@, t),
        None => Seq::<char>::empty(),
    }
}

/// Splits `s` at its first newline: the line before it and the text after.
pub open spec fn take_line(s: Seq<char>) -> Option<(Seq<char>, Seq<char>)> {
    let i = first_index(s, '\n');
    if i < 0 {
        None
    } else {
        Some((s.subrange(0, i), s.subrange(i + 1, s.len() as int)))
    }
}

/// Reads one `KEY=value` line for the given key: the value and the rest of
/// the text.
pub open spec fn read_field(s: Seq<char>, key: Seq<char>) -> Option<(Seq<char>, Seq<char>)> {
    match take_line(s) {
        None => None,
        Some((line, rest)) => {
            let p = key + "="@;
            if is_prefix(p, line) {
                Some((line.subrange(p.len() as int, line.len() as int), rest))
            } else {
                None
            }
        },
    }
}

/// The meaning of a credential text: the identity it holds and the cached
/// session token, if any; `None` when the text is malformed.
pub open spec fn credentials_of_text(s: Seq<char>) -> Option<(IdentityView, Option<Seq<char>>)> {
    match read_field(s, "SUBSCRIPTION_ID"@) {
        None => None,
        Some((sub, r1)) => match read_field(r1, "PRIVATE_KEY"@) {
            None => None,
            Some((sk, r2)) => match read_field(r2, "PUBLIC_KEY"@) {
                None => None,
                Some((pk, r3)) => {
                    let id = IdentityView {
                        subscription_id: sub,
                        keypair: KeypairView { private_key: sk, public_key: pk },
                    };
                    if sub.len() == 0 {
                        None
                    } else if r3.len() == 0 {
                        Some((id, None))
                    } else {
                        match read_field(r3, "SESSION_TOKEN"@) {
                            None => None,
                            Some((t, r4)) => if r4.len() == 0 {
                                Some((id, Some(t)))
                            } else {
                                None
                            },
                        }
                    }
                },
            },
        },
    }
}

/// Reading a rendered field line gives back the value and the trailing text.
proof fn lemma_read_field_render(key: Seq<char>, value: Seq<char>, rest: Seq<char>)
    requires
        no_char(key, '\n'),
        line_text_ok(value),
    ensures
        read_field(render_line(key, value) + rest, key) == Some((value, rest)),
{
    reveal_strlit("=");
    reveal_strlit("\n");
    let p = key + "="@;
    let line = key + "="@ + value;
    let s = render_line(key, value) + rest;
    assert(no_char("="@, '\n'));
    lemma_no_char_concat(key, "="@, '\n');
    lemma_no_char_concat(key + "="@, value, '\n');
    assert(line =~= (key + "="@) + value);
    assert(no_char(line, '\n'));
    let tail = "\n"@ + rest;
    assert(tail[0] == '\n');
    lemma_first_index_concat(line, tail, '\n');
    assert(s =~= line + tail);
    assert(first_index(s, '\n') == line.len());
    assert(s.subrange(0, line.len() as int) =~= line);
    assert(s.subrange(line.len() as int + 1, s.len() as int) =~= rest);
    assert(line.subrange(0, p.len() as int) =~= p);
    assert(is_prefix(p, line));
    assert(line.subrange(p.len() as int, line.len() as int) =~= value);
}

/// The round-trip law of the credential format: parsing what was rendered
/// for a well-formed identity, and a line-clean token if one is cached,
/// yields exactly that identity and token.
pub proof fn lemma_credentials_round_trip(id: IdentityView, token: Option<Seq<char>>)
    requires
        id.wf(),
        token matches Some(t) ==> line_text_ok(t),
    ensures
        credentials_of_text(render_credentials(id, token)) == Some((id, token)),
{
    let l1 = render_line("SUBSCRIPTION_ID"@, id.subscription_id);
    let l2 = render_line("PRIVATE_KEY"@, id.keypair.private_key);
    let l3 = render_line("PUBLIC_KEY"@, id.keypair.public_key);
    let l4 = match token {
        Some(t) => render_line("SESSION_TOKEN"@, t),
        None => Seq::<char>::empty(),
    };
    let s = render_credentials(id, token);
    reveal_strlit("SUBSCRIPTION_ID");
    reveal_strlit("PRIVATE_KEY");
    reveal_strlit("PUBLIC_KEY");
    reveal_strlit("SESSION_TOKEN");
    assert(no_char("SUBSCRIPTION_ID"@, '\n'));
    assert(no_char("PRIVATE_KEY"@, '\n'));
    assert(no_char("PUBLIC_KEY"@, '\n'));
    assert(no_char("SESSION_TOKEN"@, '\n'));
    assert(s =~= l1 + (l2 + (l3 + l4)));
    lemma_read_field_render("SUBSCRIPTION_ID"@, id.subscription_id, l2 + (l3 + l4));
    lemma_read_field_render("PRIVATE_KEY"@, id.keypair.private_key, l3 + l4);
    lemma_read_field_render("PUBLIC_KEY"@, id.keypair.public_key, l4);
    match token {
        Some(t) => {
            lemma_read_field_render("SESSION_TOKEN"@, t, Seq::<char>::empty());
        },
        None => {},
    }
}

/// The credential text under which `id`, and a cached session token if one
/// is given, is persisted. Writing this text to a store and parsing it back
/// returns the identity unchanged.
pub fn credential_text(id: &Identity, token: Option<&String>) -> (r: String)
    ensures
        r@ == render_credentials(
            id@,
            match token {
                Some(t) => Some(t@),
                None => None,
            },
        ),
{
    let mut s = String::from_str("SUBSCRIPTION_ID=");
    s.append(id.subscription_id.as_str());
    s.append("\n");
    s.append("PRIVATE_KEY=");
    s.append(id.keypair.private_key.as_str());
    s.append("\n");
    s.append("PUBLIC_KEY=");
    s.append(id.keypair.public_key.as_str());
    s.append("\n");
    match token {
        Some(t) => {
            s.append("SESSION_TOKEN=");
            s.append(t.as_str());
            s.append("\n");
            proof {
                lemma_literal_lines();
                assert(s@ =~= render_credentials(id@, Some(t@)));
            }
        },
        None => {
            proof {
                lemma_literal_lines();
                assert(s@ =~= render_credentials(id@, None));
            }
        },
    }
    s
}

/// The composite literals used when rendering, split into their parts.
proof fn lemma_literal_lines()
    ensures
        "SUBSCRIPTION_ID="@ == "SUBSCRIPTION_ID"@ + "="@,
        "PRIVATE_KEY="@ == "PRIVATE_KEY"@ + "="@,
        "PUBLIC_KEY="@ == "PUBLIC_KEY"@ + "="@,
        "SESSION_TOKEN="@ == "SESSION_TOKEN"@ + "="@,
{
    reveal_strlit("SUBSCRIPTION_ID=");
    reveal_strlit("PRIVATE_KEY=");
    reveal_strlit("PUBLIC_KEY=");
    reveal_strlit("SESSION_TOKEN=");
    reveal_strlit("SUBSCRIPTION_ID");
    reveal_strlit("PRIVATE_KEY");
    reveal_strlit("PUBLIC_KEY");
    reveal_strlit("SESSION_TOKEN");
    reveal_strlit("=");
    assert("SUBSCRIPTION_ID="@ =~= "SUBSCRIPTION_ID"@ + "="@);
    assert("PRIVATE_KEY="@ =~= "PRIVATE_KEY"@ + "="@);
    assert("PUBLIC_KEY="@ =~= "PUBLIC_KEY"@ + "="@);
    assert("SESSION_TOKEN="@ =~= "SESSION_TOKEN"@ + "="@);
}

/// Reads one `KEY=value` line off the front of `s`, for the key carried by
/// `key_eq`, which must be the text of `key` followed by `=`.
fn read_field_text(s: &str, key_eq: &str, key: Ghost<Seq<char>>) -> (r: Option<(String, String)>)
    requires
        key_eq@ == key@ + "="@,
    ensures
        match r {
            Some((value, rest)) => read_field(s@, key@) == Some((value@, rest@)),
            None => read_field(s@, key@) == None::<(Seq<char>, Seq<char>)>,
        },
{
    proof {
        lemma_first_index_props(s@, '\n');
    }
    let nl = match find_char(s, '\n') {
        None => {
            return None;
        },
        Some(i) => i,
    };
    let n = s.unicode_len();
    let line = substring_copy(s, 0, nl);
    let rest = substring_copy(s, nl + 1, n);
    if !has_prefix(line.as_str(), key_eq) {
        return None;
    }
    let ke = key_eq.unicode_len();
    proof {
        assert(is_prefix(key_eq@, line@));
    }
    let value = substring_copy(line.as_str(), ke, line.as_str().unicode_len());
    Some((value, rest))
}

/// Parses a credential text back into the identity it holds and the cached
/// session token, if any. Fails exactly on texts that
/// [`credentials_of_text`] calls malformed.
pub fn parse_credentials(s: &str) -> (r: Result<(Identity, Option<String>), SxtError>)
    ensures
        match r {
            Ok((id, token)) => credentials_of_text(s@) == Some(
                (
                    id@,
                    match token {
                        Some(t) => Some(t@),
                        None => None,
                    },
                ),
            ),
            Err(e) => e == SxtError::ParseError && credentials_of_text(s@) == None::<
                (IdentityView, Option<Seq<char>>),
            >,
        },
{
    proof {
        lemma_literal_lines();
    }
    let (sub, r1) = match read_field_text(s, "SUBSCRIPTION_ID=", Ghost("SUBSCRIPTION_ID"@)) {
        None => {
            return Err(SxtError::ParseError);
        },
        Some(p) => p,
    };
    let (sk, r2) = match read_field_text(r1.as_str(), "PRIVATE_KEY=", Ghost("PRIVATE_KEY"@)) {
        None => {
            return Err(SxtError::ParseError);
        },
        Some(p) => p,
    };
    let (pk, r3) = match read_field_text(r2.as_str(), "PUBLIC_KEY=", Ghost("PUBLIC_KEY"@)) {
        None => {
            return Err(SxtError::ParseError);
        },
        Some(p) => p,
    };
    if sub.as_str().is_empty() {
        return Err(SxtError::ParseError);
    }
    let id = Identity {
        subscription_id: sub,
        keypair: Keypair { private_key: sk, public_key: pk },
    };
    if r3.as_str().is_empty() {
        return Ok((id, None));
    }
    let (t, r4) = match read_field_text(r3.as_str(), "SESSION_TOKEN=", Ghost("SESSION_TOKEN"@)) {
        None => {
            return Err(SxtError::ParseError);
        },
        Some(p) => p,
    };
    if !r4.as_str().is_empty() {
        return Err(SxtError::ParseError);
    }
    Ok((id, Some(t)))
}

} // verus!
