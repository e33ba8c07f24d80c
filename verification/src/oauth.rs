//! The reply side of the OAuth authorization code flow: reading the code from the
//! redirect, and the page shown to the user.
use vstd::prelude::*;

use crate::text::{
    chars_of, occurs_at, starts_with_spec, str_eq, string_from_chars, to_owned_string,
    trim_start_spec,
};

verus! {

/// The authorization code (and state) that the provider redirected with.
#[derive(Clone, Debug, PartialEq, Eq)]
pub struct AuthorizationCodeReply {
    pub code: String,
    pub state: Option<String>,
}

/// The text of the reply page in one language.
#[derive(Clone, Copy, Debug)]
pub struct ReplyPageCopy {
    pub language: &'static str,
    pub success_title: &'static str,
    pub success_message: &'static str,
    pub error_title: &'static str,
    pub error_message: &'static str,
}

/// The comma-separated entries of an `Accept-Language` value.
pub open spec fn comma_entries(s: Seq<char>) -> Seq<Seq<char>>
    decreases s.len(),
{
    if s.len() == 0 {
        seq![Seq::empty()]
    } else {
        let rest = comma_entries(s.drop_last());
        if s.last() == ',' {
            rest.push(Seq::empty())
        } else {
            rest.update(rest.len() - 1, rest.last().push(s.last()))
        }
    }
}

proof fn lemma_comma_entries_nonempty(s: Seq<char>)
    ensures
        comma_entries(s).len() >= 1,
    decreases s.len(),
{
    if s.len() > 0 {
        lemma_comma_entries_nonempty(s.drop_last());
    }
}

/// A language entry that starts with `zh` after leading whitespace.
pub open spec fn entry_is_zh(entry: Seq<char>) -> bool {
    starts_with_spec(trim_start_spec(entry), "zh"@)
}

/// One of the first `n` entries is Chinese.
pub open spec fn some_zh_entry(entries: Seq<Seq<char>>, n: int) -> bool {
    exists|k: int| 0 <= k < n && #[trigger] entry_is_zh(entries[k])
}

/// Some language of an `Accept-Language` value starts with `zh` (after leading spaces).
pub open spec fn prefers_chinese(accept_language: Seq<char>) -> bool {
    some_zh_entry(comma_entries(accept_language), comma_entries(accept_language).len() as int)
}

/// Whether the entry `chars[from..to]`, without leading whitespace, starts with `zh`.
fn entry_is_chinese(chars: &Vec<char>, from: usize, to: usize) -> (r: bool)
    requires
        from <= to <= chars.len(),
    ensures
        r == starts_with_spec(trim_start_spec(chars@.subrange(from as int, to as int)), "zh"@),
{
    let entry = string_from_chars(chars, from, to);
    let trimmed = crate::text::trim_start_string(entry.as_str());
    crate::text::str_starts_with(trimmed.as_str(), "zh")
}

/// Whether an `Accept-Language` value asks for Chinese.
pub fn accepts_chinese(accept_language: &str) -> (r: bool)
    ensures
        r == prefers_chinese(accept_language@),
{
    let chars = chars_of(accept_language);
    let mut start: usize = 0;
    let mut i: usize = 0;
    let mut found = false;
    while i < chars.len()
        invariant
            start <= i <= chars.len(),
            comma_entries(chars@.take(i as int)).len() >= 1,
            comma_entries(chars@.take(i as int)).last() == chars@.subrange(start as int, i as int),
            found == some_zh_entry(comma_entries(chars@.take(i as int)), comma_entries(chars@.take(i as int)).len() - 1),
        decreases chars.len() - i,
    {
        let ghost prefix = chars@.take(i as int);
        let ghost next = chars@.take(i + 1);
        proof {
            assert(next.drop_last() =~= prefix);
            assert(next.last() == chars@[i as int]);
            lemma_comma_entries_nonempty(prefix);
        }
        if chars[i] == ',' {
            let last_is = entry_is_chinese(&chars, start, i);
            proof {
                let rest = comma_entries(prefix);
                let nx = comma_entries(next);
                assert(nx == rest.push(Seq::empty()));
                assert(last_is == entry_is_zh(rest[rest.len() - 1]));
                if found || last_is {
                    if found {
                        let k = choose|k: int| 0 <= k < rest.len() - 1 && #[trigger] entry_is_zh(rest[k]);
                        assert(nx[k] == rest[k]);
                    } else {
                        assert(nx[rest.len() - 1] == rest[rest.len() - 1]);
                    }
                    assert(some_zh_entry(nx, nx.len() - 1));
                } else {
                    assert forall|k: int| 0 <= k < nx.len() - 1 implies !#[trigger] entry_is_zh(nx[k]) by {
                        assert(nx[k] == rest[k]);
                    }
                }
            }
            found = found || last_is;
            start = i + 1;
            proof {
                assert(chars@.subrange(start as int, i + 1) =~= Seq::<char>::empty());
            }
        } else {
            proof {
                let rest = comma_entries(prefix);
                let nx = comma_entries(next);
                assert(nx == rest.update(rest.len() - 1, rest.last().push(chars@[i as int])));
                assert(chars@.subrange(start as int, i + 1) =~= chars@.subrange(start as int, i as int).push(chars@[i as int]));
                if found {
                    let k = choose|k: int| 0 <= k < rest.len() - 1 && #[trigger] entry_is_zh(rest[k]);
                    assert(nx[k] == rest[k]);
                } else {
                    assert forall|k: int| 0 <= k < nx.len() - 1 implies !#[trigger] entry_is_zh(nx[k]) by {
                        assert(nx[k] == rest[k]);
                    }
                }
            }
        }
        i = i + 1;
    }
    let last_is = entry_is_chinese(&chars, start, chars.len());
    proof {
        assert(chars@.take(chars@.len() as int) =~= chars@);
        let es = comma_entries(chars@);
        assert(last_is == entry_is_zh(es[es.len() - 1]));
        if found {
            let k = choose|k: int| 0 <= k < es.len() - 1 && #[trigger] entry_is_zh(es[k]);
            assert(some_zh_entry(es, es.len() as int));
        } else if last_is {
            assert(some_zh_entry(es, es.len() as int));
        } else {
            assert forall|k: int| 0 <= k < es.len() implies !#[trigger] entry_is_zh(es[k]) by {
                if k < es.len() - 1 {
                    assert(!entry_is_zh(es[k]));
                }
            }
        }
    }
    found || last_is
}

/// The reply page's text: Chinese when the browser asks for it, else English.
pub fn reply_page_copy(accept_language: Option<&str>) -> (r: ReplyPageCopy)
    ensures
        (accept_language matches Some(v) && prefers_chinese(v@)) ==> r.language@ == "zh-CN"@
            && r.success_title@ == "登录成功"@
            && r.success_message@ == "你已成功登录！现在可以关闭此页面。"@
            && r.error_title@ == "发生错误"@
            && r.error_message@ == "未找到授权代码。请重新尝试登录。"@,
        !(accept_language matches Some(v) && prefers_chinese(v@)) ==> r.language@ == "en"@
            && r.success_title@ == "Success"@
            && r.success_message@ == "You have successfully signed in! You can close this page now."@
            && r.error_title@ == "Error"@
            && r.error_message@ == "Authorization code not found. Please try signing in again."@,
{
    let is_chinese = match accept_language {
        Some(v) => accepts_chinese(v),
        None => false,
    };
    if is_chinese {
        ReplyPageCopy {
            language: "zh-CN",
            success_title: "登录成功",
            success_message: "你已成功登录！现在可以关闭此页面。",
            error_title: "发生错误",
            error_message: "未找到授权代码。请重新尝试登录。",
        }
    } else {
        ReplyPageCopy {
            language: "en",
            success_title: "Success",
            success_message: "You have successfully signed in! You can close this page now.",
            error_title: "Error",
            error_message: "Authorization code not found. Please try signing in again.",
        }
    }
}

/// `s` with every occurrence of `pat` replaced by `rep`, scanning left to right
/// (`str::replace` with a non-empty pattern).
pub open spec fn replace_spec(s: Seq<char>, pat: Seq<char>, rep: Seq<char>) -> Seq<char>
    decreases s.len(),
{
    if pat.len() == 0 || s.len() < pat.len() {
        s
    } else if s.take(pat.len() as int) == pat {
        rep + replace_spec(s.skip(pat.len() as int), pat, rep)
    } else {
        seq![s[0]] + replace_spec(s.skip(1), pat, rep)
    }
}

/// Replaces every occurrence of a non-empty `pat` in `s` by `rep`.
pub fn replace_all(s: &str, pat: &str, rep: &str) -> (r: String)
    requires
        pat@.len() > 0,
    ensures
        r@ == replace_spec(s@, pat@, rep@),
{
    let chars = chars_of(s);
    let p = chars_of(pat);
    let mut out = String::new();
    let mut i: usize = 0;
    proof {
        assert(chars@.skip(0) =~= chars@);
        assert(out@ + replace_spec(chars@, p@, rep@) =~= replace_spec(chars@, p@, rep@));
    }
    while i < chars.len()
        invariant
            i <= chars.len(),
            p@ == pat@,
            p@.len() > 0,
            chars@ == s@,
            out@ + replace_spec(chars@.skip(i as int), p@, rep@) == replace_spec(chars@, p@, rep@),
        decreases chars.len() - i,
    {
        let ghost rest = chars@.skip(i as int);
        if chars.len() - i >= p.len() && crate::text::chars_occur_at(&chars, &p, i) {
            proof {
                assert(rest.take(p@.len() as int) =~= p@);
                assert(rest.skip(p@.len() as int) =~= chars@.skip(i + p@.len()));
                assert(out@ + rep@ + replace_spec(chars@.skip(i + p@.len()), p@, rep@) =~= out@
                    + replace_spec(rest, p@, rep@));
            }
            out.append(rep);
            i = i + p.len();
        } else {
            proof {
                if rest.len() >= p@.len() {
                    assert(rest.take(p@.len() as int) != p@) by {
                        if rest.take(p@.len() as int) == p@ {
                            assert(chars@.subrange(i as int, i + p@.len()) =~= rest.take(p@.len() as int));
                            assert(occurs_at(chars@, p@, i as int));
                        }
                    }
                }
                assert(rest.skip(1) =~= chars@.skip(i + 1));
                assert(out@.push(chars@[i as int]) + replace_spec(chars@.skip(i + 1), p@, rep@) =~= out@
                    + replace_spec(rest, p@, rep@));
            }
            crate::text::push_char(&mut out, chars[i]);
            i = i + 1;
        }
    }
    proof {
        assert(chars@.skip(i as int) =~= Seq::<char>::empty());
        assert(out@ + Seq::<char>::empty() =~= out@);
    }
    out
}

/// The reply page: the template with its language, title and message filled in.
pub open spec fn reply_page_spec(template: Seq<char>, language: Seq<char>, title: Seq<char>, message: Seq<char>) -> Seq<char> {
    replace_spec(
        replace_spec(replace_spec(template, "lang=en"@, "lang="@ + language), "{{title}}"@, title),
        "{{message}}"@,
        message,
    )
}

/// Fills in the reply page template.
pub fn render_reply_page(template: &str, language: &str, title: &str, message: &str) -> (r: String)
    ensures
        r@ == reply_page_spec(template@, language@, title@, message@),
{
    proof {
        reveal_strlit("lang=en");
        reveal_strlit("{{title}}");
        reveal_strlit("{{message}}");
    }
    let mut lang = to_owned_string("lang=");
    lang.append(language);
    let a = replace_all(template, "lang=en", lang.as_str());
    let b = replace_all(a.as_str(), "{{title}}", title);
    replace_all(b.as_str(), "{{message}}", message)
}

/// The decoded name/value pairs of an `application/x-www-form-urlencoded` string, as
/// `form_urlencoded::parse` yields them.
pub uninterp spec fn form_urlencoded_pairs(input: Seq<char>) -> Seq<(Seq<char>, Seq<char>)>;

/// The views of name/value pairs.
pub open spec fn pair_views(pairs: Seq<(String, String)>) -> Seq<(Seq<char>, Seq<char>)> {
    pairs.map_values(|p: (String, String)| (p.0@, p.1@))
}

/// Decodes a query string with `url::form_urlencoded::parse`. The contract names the
/// decoded pairs `form_urlencoded_pairs` of the query text.
#[verifier::external_body]
fn parse_form_urlencoded(query: &str) -> (r: Vec<(String, String)>)
    ensures
        pair_views(r@) == form_urlencoded_pairs(query@),
{
    url::form_urlencoded::parse(query.as_bytes()).map(|(k, v)| (k.into_owned(), v.into_owned())).collect()
}

/// The value of the last pair named `key`.
pub open spec fn last_value_of(pairs: Seq<(Seq<char>, Seq<char>)>, key: Seq<char>) -> Option<Seq<char>>
    decreases pairs.len(),
{
    if pairs.len() == 0 {
        None
    } else if pairs.last().0 == key {
        Some(pairs.last().1)
    } else {
        last_value_of(pairs.drop_last(), key)
    }
}

/// The value of the last pair named `key`.
fn find_last_value(pairs: &Vec<(String, String)>, key: &str) -> (r: Option<String>)
    ensures
        match last_value_of(pair_views(pairs@), key@) {
            Some(v) => r matches Some(s) && s@ == v,
            None => r is None,
        },
{
    let mut i = pairs.len();
    proof {
        assert(pair_views(pairs@).take(i as int) =~= pair_views(pairs@));
    }
    while i > 0
        invariant
            i <= pairs.len(),
            last_value_of(pair_views(pairs@), key@) == last_value_of(pair_views(pairs@).take(i as int), key@),
        decreases i,
    {
        proof {
            assert(pair_views(pairs@).take(i as int).drop_last() =~= pair_views(pairs@).take(i - 1));
        }
        if str_eq(pairs[i - 1].0.as_str(), key) {
            return Some(pairs[i - 1].1.clone());
        }
        i = i - 1;
    }
    None
}

/// The reply that decoded query pairs carry: the last `code` (required) and the last
/// `state`, as a map built from the pairs would keep them.
pub fn authorization_code_from_pairs(pairs: &Vec<(String, String)>) -> (r: Option<AuthorizationCodeReply>)
    ensures
        match last_value_of(pair_views(pairs@), "code"@) {
            None => r is None,
            Some(code) => r matches Some(reply) && reply.code@ == code && match last_value_of(
                pair_views(pairs@),
                "state"@,
            ) {
                Some(state) => reply.state matches Some(s) && s@ == state,
                None => reply.state is None,
            },
        },
{
    let code = match find_last_value(pairs, "code") {
        Some(code) => code,
        None => return None,
    };
    let state = find_last_value(pairs, "state");
    Some(AuthorizationCodeReply { code, state })
}

/// The reply in a redirect's query string, if it has one with a code.
pub fn authorization_code_reply(query: Option<&str>) -> (r: Option<AuthorizationCodeReply>)
    ensures
        query is None ==> r is None,
        query matches Some(q) ==> match last_value_of(form_urlencoded_pairs(q@), "code"@) {
            None => r is None,
            Some(code) => r matches Some(reply) && reply.code@ == code && match last_value_of(
                form_urlencoded_pairs(q@),
                "state"@,
            ) {
                Some(state) => reply.state matches Some(s) && s@ == state,
                None => reply.state is None,
            },
        },
{
    match query {
        Some(q) => {
            let pairs = parse_form_urlencoded(q);
            authorization_code_from_pairs(&pairs)
        },
        None => None,
    }
}

} // verus!
