//! Text-delimited extraction from the portal's pages: the anti-forgery token
//! of the login form and the user payload of the page after login.
use vstd::prelude::*;
use crate::error::EdupageError;
use crate::text::{
    after_first, before_first, chars_of, contains, find_from, first_from, lemma_contains_first,
    lemma_first_from_found, lemma_first_from_hit, lemma_occurs_prefix, lemma_occurs_self,
    lemma_occurs_suffix, lemma_without_absent, lemma_without_concat, occurs_at, remove_char, slice_of, split_first, split_second, string_of,
    without,
};

verus! {

/// The name of the anti-forgery field; a login page mentions it.
pub open spec fn auth_word() -> Seq<char> {
    "csrfauth"@
}

/// What stands right before the token's value.
pub open spec fn token_field() -> Seq<char> {
    "name=\"csrfauth\" value=\""@
}

/// What ends the token's value.
pub open spec fn quote() -> Seq<char> {
    "\""@
}

/// The opening of the startup script that holds the payload.
pub open spec fn ready_marker() -> Seq<char> {
    "$j(document).ready(function() {"@
}

/// What closes a script call.
pub open spec fn call_end() -> Seq<char> {
    ");"@
}

/// The call whose argument is the payload.
pub open spec fn payload_call() -> Seq<char> {
    "userhome("@
}

/// The token of a login page: what follows the first `token_field()` up to the
/// next quote, if both are there.
pub open spec fn token_value(h: Seq<char>) -> Option<Seq<char>> {
    let i = first_from(h, token_field(), 0);
    if i < 0 {
        None
    } else {
        let start = i + token_field().len();
        let q = first_from(h, quote(), start);
        if q < 0 {
            None
        } else {
            Some(h.subrange(start, q))
        }
    }
}

/// The payload's JSON text in a page: the first startup script's block, cut at
/// the first call's end, without tabs; then the argument of `payload_call()`,
/// without line feeds and carriage returns.
pub open spec fn payload_text(h: Seq<char>) -> Option<Seq<char>> {
    match after_first(h, ready_marker()) {
        None => None,
        Some(block) => {
            let call = without(before_first(block, call_end()), '\t');
            match after_first(call, payload_call()) {
                None => None,
                Some(args) => Some(without(without(args, '\n'), '\r')),
            }
        },
    }
}

/// A page in which the token field first appears followed by a value `x` and
/// a closing quote mentions the field's name, and its token is exactly `x`.
pub proof fn lemma_token_round_trip(pre: Seq<char>, x: Seq<char>, post: Seq<char>)
    requires
        !contains(pre + token_field().drop_last(), token_field()),
        !x.contains('"'),
    ensures
        contains(pre + token_field() + x + quote() + post, auth_word()),
        token_value(pre + token_field() + x + quote() + post) == Some(x),
{
    reveal_strlit("csrfauth");
    reveal_strlit("name=\"csrfauth\" value=\"");
    reveal_strlit("\"");
    let f = token_field();
    let q = quote();
    let h = pre + f + x + q + post;
    let n = pre.len() as int;
    let k = f.len() as int;
    let m = x.len() as int;
    // the field stands right after `pre`, and nowhere before
    assert(h =~= (pre + f) + (x + q + post));
    lemma_occurs_prefix(pre + f, x + q + post, f, n);
    lemma_occurs_self(f);
    lemma_occurs_suffix(pre, f, f, 0);
    assert forall|j: int| 0 <= j < n implies !occurs_at(h, f, j) by {
        assert(h =~= (pre + f.drop_last()) + (seq![f.last()] + x + q + post));
        lemma_occurs_prefix(pre + f.drop_last(), seq![f.last()] + x + q + post, f, j);
    }
    lemma_first_from_hit(h, f, 0, n);
    // the field's name stands inside the field
    let w = auth_word();
    assert(f.subrange(6, 14) =~= w);
    lemma_occurs_suffix(pre, f, w, 6);
    lemma_occurs_prefix(pre + f, x + q + post, w, n + 6);
    // the first quote after the field closes `x`
    assert(h =~= (pre + f + x) + (q + post));
    lemma_occurs_self(q);
    lemma_occurs_prefix(q, post, q, 0);
    lemma_occurs_suffix(pre + f + x, q + post, q, 0);
    assert forall|j: int| n + k <= j < n + k + m implies !occurs_at(h, q, j) by {
        assert(h =~= (pre + f) + (x + (q + post)));
        lemma_occurs_suffix(pre + f, x + (q + post), q, j - n - k);
        lemma_occurs_prefix(x, q + post, q, j - n - k);
        if occurs_at(x, q, j - n - k) {
            assert(x[j - n - k] == x.subrange(j - n - k, j - n - k + 1)[0]);
        }
    }
    lemma_first_from_hit(h, q, n + k, n + k + m);
    assert(h.subrange(n + k, n + k + m) =~= x);
}

/// A JSON text `json`, written into the first startup script as the argument
/// of the payload call with tabs, line feeds and carriage returns mixed in
/// (`noisy`), comes back out as `json`. Before the call the script may hold
/// other text (`lead`, such as white space). Neither may close the call early,
/// `lead` may not hold the call itself, `noisy` may not repeat it once its
/// tabs are taken out, and no other startup script may begin before the call
/// has closed.
pub proof fn lemma_payload_round_trip(
    pre: Seq<char>,
    lead: Seq<char>,
    noisy: Seq<char>,
    json: Seq<char>,
    post: Seq<char>,
)
    requires
        !contains(pre + ready_marker().drop_last(), ready_marker()),
        !contains(lead + payload_call() + noisy + ")"@, call_end()),
        !contains(without(lead, '\t') + payload_call().drop_last(), payload_call()),
        !contains(without(noisy, '\t'), payload_call()),
        forall|j: int|
            0 <= j < (lead + payload_call() + noisy + call_end()).len() ==> !occurs_at(
                lead + payload_call() + noisy + call_end() + post,
                ready_marker(),
                j,
            ),
        without(without(without(noisy, '\t'), '\n'), '\r') == json,
    ensures
        payload_text(pre + ready_marker() + lead + payload_call() + noisy + call_end() + post)
            == Some(json),
{
    reveal_strlit("$j(document).ready(function() {");
    reveal_strlit(");");
    reveal_strlit(")");
    reveal_strlit("userhome(");
    let r = ready_marker();
    let c = payload_call();
    let e = call_end();
    let h = pre + r + lead + c + noisy + e + post;
    let rest = lead + c + noisy + e + post;
    let n = pre.len() as int;
    let start = n + r.len();
    let m = (lead + c + noisy + e).len() as int;
    // the startup script opens right after `pre`
    assert(h =~= (pre + r) + rest);
    lemma_occurs_prefix(pre + r, rest, r, n);
    lemma_occurs_self(r);
    lemma_occurs_suffix(pre, r, r, 0);
    assert forall|j: int| 0 <= j < n implies !occurs_at(h, r, j) by {
        assert(h =~= (pre + r.drop_last()) + (seq![r.last()] + rest));
        lemma_occurs_prefix(pre + r.drop_last(), seq![r.last()] + rest, r, j);
    }
    lemma_first_from_hit(h, r, 0, n);
    // and no other one opens before the call has closed
    lemma_first_from_found(h, r, start);
    let nxt = first_from(h, r, start);
    if nxt >= 0 {
        lemma_occurs_suffix(pre + r, rest, r, nxt - start);
        assert(rest =~= lead + c + noisy + e + post);
    }
    let end = if nxt < 0 { h.len() as int } else { nxt };
    assert(start + m <= end);
    let block = h.subrange(start, end);
    assert(after_first(h, r) == Some(block));
    // the call closes where `noisy` ends
    let cn = lead + c + noisy;
    assert(block =~= (cn + e) + block.subrange(m, block.len() as int));
    lemma_occurs_self(e);
    lemma_occurs_prefix(cn + e, block.subrange(m, block.len() as int), e, cn.len() as int);
    lemma_occurs_suffix(cn, e, e, 0);
    assert forall|j: int| 0 <= j < cn.len() implies !occurs_at(block, e, j) by {
        assert(block =~= (cn + ")"@) + block.subrange(cn.len() + 1int, block.len() as int));
        lemma_occurs_prefix(cn + ")"@, block.subrange(cn.len() + 1int, block.len() as int), e, j);
    }
    lemma_first_from_hit(block, e, 0, cn.len() as int);
    assert(before_first(block, e) =~= cn);
    // taking the tabs out leaves the call's name whole
    let w1 = without(lead, '\t');
    let n1 = without(noisy, '\t');
    lemma_without_concat(lead + c, noisy, '\t');
    lemma_without_concat(lead, c, '\t');
    lemma_without_absent(c, '\t');
    let call = w1 + c + n1;
    assert(without(cn, '\t') == call);
    // the first call starts after `lead`
    assert(call =~= (w1 + c) + n1);
    lemma_occurs_self(c);
    lemma_occurs_suffix(w1, c, c, 0);
    lemma_occurs_prefix(w1 + c, n1, c, w1.len() as int);
    assert forall|j: int| 0 <= j < w1.len() implies !occurs_at(call, c, j) by {
        assert(call =~= (w1 + c.drop_last()) + (seq![c.last()] + n1));
        lemma_occurs_prefix(w1 + c.drop_last(), seq![c.last()] + n1, c, j);
    }
    lemma_first_from_hit(call, c, 0, w1.len() as int);
    // and no other call follows it
    let after = (w1 + c).len() as int;
    lemma_first_from_found(call, c, after);
    if first_from(call, c, after) >= 0 {
        let j = first_from(call, c, after);
        lemma_occurs_suffix(w1 + c, n1, c, j - after);
    }
    assert(call.subrange(after, call.len() as int) =~= n1);
}

/// The anti-forgery token of a login page.
pub fn extract_csrf_token(html: &str) -> (r: Result<String, EdupageError>)
    ensures
        r is Ok <==> contains(html@, auth_word()) && token_value(html@) is Some,
        r matches Ok(t) ==> token_value(html@) == Some(t@),
        r matches Err(e) ==> (e is InvalidResponse <==> !contains(html@, auth_word())),
        r matches Err(e) ==> e is InvalidResponse || e is ParseError,
{
    let h = chars_of(html);
    let word = chars_of("csrfauth");
    let field = chars_of("name=\"csrfauth\" value=\"");
    let q = chars_of("\"");
    proof {
        reveal_strlit("csrfauth");
        reveal_strlit("name=\"csrfauth\" value=\"");
        reveal_strlit("\"");
        lemma_contains_first(h@, word@);
        lemma_first_from_found(h@, field@, 0);
    }
    if find_from(&h, &word, 0).is_none() {
        return Err(EdupageError::InvalidResponse);
    }
    let i = match find_from(&h, &field, 0) {
        Some(i) => i,
        None => {
            return Err(EdupageError::ParseError("Failed to parse csrf token.".to_string()));
        },
    };
    let n = h.len();
    assert(i + field@.len() <= n);
    let start = i + field.len();
    let end = match find_from(&h, &q, start) {
        Some(j) => j,
        None => {
            return Err(EdupageError::ParseError("Unterminated csrf token.".to_string()));
        },
    };
    proof {
        lemma_first_from_found(h@, q@, start as int);
    }
    Ok(string_of(&slice_of(&h, start, end)))
}

/// The payload's JSON text in the page that follows a login.
pub fn extract_payload_text(html: &str) -> (r: Option<String>)
    ensures
        r matches Some(t) ==> payload_text(html@) == Some(t@),
        r is None ==> payload_text(html@) is None,
{
    let h = chars_of(html);
    let ready = chars_of("$j(document).ready(function() {");
    let close = chars_of(");");
    let call = chars_of("userhome(");
    proof {
        reveal_strlit("$j(document).ready(function() {");
        reveal_strlit(");");
        reveal_strlit("userhome(");
    }
    let block = match split_second(&h, &ready) {
        Some(b) => b,
        None => {
            return None;
        },
    };
    let invocation = remove_char(&split_first(&block, &close), '\t');
    let args = match split_second(&invocation, &call) {
        Some(a) => a,
        None => {
            return None;
        },
    };
    let json = remove_char(&remove_char(&args, '\n'), '\r');
    Some(string_of(&json))
}

} // verus!
