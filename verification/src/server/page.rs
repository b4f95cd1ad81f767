//! The frontend's page and the policy it is served under: the inline scripts
//! it ships are pinned by hash in the Content-Security-Policy, and its
//! absolute URLs are rendered for the origin this instance runs at.
use vstd::prelude::*;
use crate::primitives::{b64std_encode, b64std_text, sha256_digest};
use crate::server::auth::Session;
use crate::server::config::{clamp, mode_name, Config};
use crate::server::meta::opt_view;
use crate::server::util;
use crate::text::{chars_of, contains, find, find_char, lemma_find_char_from, lemma_find_from, matches_at, position_of,
    search_from, str_views, string_of, trim_bounds, trim_end_char, trim_end_matches_char, trim_ws};
use crate::wire::{ServerInfo, DEFAULT_MAX_DOWNLOADS, MAX_DOWNLOADS, MAX_EXPIRY_SECS, MIN_EXPIRY_SECS};

verus! {

broadcast use vstd::string::group_string_axioms;

/// The bodies of the inline `<script>` elements of `html`, in order. From
/// each `<script` the tag runs to the first `>` and the body to the next
/// `</script>`; scripts whose tag carries ` src=` are external and skipped,
/// as are bodies that are only whitespace. An unterminated tag or body ends
/// the scan.
pub open spec fn inline_script_bodies(html: Seq<char>) -> Seq<Seq<char>>
    decreases html.len(),
{
    match find(html, "<script"@) {
        Some(o) => if 0 <= o <= html.len() {
            let r = html.subrange(o, html.len() as int);
            match find_char(r, '>') {
                Some(te) => if 0 <= te < r.len() {
                    let tag = r.subrange(0, te + 1);
                    let after = r.subrange(te + 1, r.len() as int);
                    match find(after, "</script>"@) {
                        Some(c) => if 0 <= c <= after.len() {
                            let body = after.subrange(0, c);
                            let rest = after.subrange(c, after.len() as int);
                            (if !contains(tag, " src="@) && trim_ws(body).len() > 0 {
                                seq![body]
                            } else {
                                Seq::<Seq<char>>::empty()
                            }) + inline_script_bodies(rest)
                        } else {
                            Seq::empty()
                        },
                        None => Seq::empty(),
                    }
                } else {
                    Seq::empty()
                },
                None => Seq::empty(),
            }
        } else {
            Seq::empty()
        },
        None => Seq::empty(),
    }
}

/// No `<` in `s`.
pub open spec fn no_lt(s: Seq<char>) -> bool {
    forall|i: int| 0 <= i < s.len() ==> #[trigger] s[i] != '<'
}

/// A page of inline scripts: for each body, the text before it (`gaps`),
/// then `<script>`, the body and `</script>`; then `tail`.
pub open spec fn script_page(gaps: Seq<Seq<char>>, bodies: Seq<Seq<char>>, tail: Seq<char>) -> Seq<char>
    decreases bodies.len(),
{
    if bodies.len() == 0 || gaps.len() == 0 {
        tail
    } else {
        gaps[0] + "<script>"@ + bodies[0] + "</script>"@ + script_page(gaps.drop_first(), bodies.drop_first(), tail)
    }
}

/// Where `pat` first occurs in `p + t` when it occurs nowhere starting
/// inside `p`: where it first occurs in `t`, moved past `p`.
proof fn lemma_find_past(p: Seq<char>, t: Seq<char>, pat: Seq<char>)
    requires
        forall|j: int| 0 <= j < p.len() ==> !matches_at(p + t, pat, j),
    ensures
        find(p + t, pat) == match find(t, pat) {
            Some(o) => Some(o + p.len()),
            None => None::<int>,
        },
{
    let s = p + t;
    let n = p.len() as int;
    lemma_find_from(s, pat, 0);
    lemma_find_from(t, pat, 0);
    assert forall|j: int| j >= 0 implies matches_at(s, pat, n + j) == #[trigger] matches_at(t, pat, j) by {
        if n + j + pat.len() <= s.len() {
            assert(s.subrange(n + j, n + j + pat.len()) =~= t.subrange(j, j + pat.len()));
        }
    }
    match find(t, pat) {
        Some(o) => {
            assert(matches_at(t, pat, o));
            assert(matches_at(s, pat, n + o));
            match find(s, pat) {
                Some(i) => {
                    if i < n {
                        assert(!matches_at(s, pat, i));
                    } else {
                        assert(matches_at(t, pat, i - n));
                        assert(matches_at(s, pat, n + (i - n)) == matches_at(t, pat, i - n));
                    }
                },
                None => {},
            }
        },
        None => {
            match find(s, pat) {
                Some(i) => {
                    if i >= n {
                        assert(matches_at(s, pat, n + (i - n)) == matches_at(t, pat, i - n));
                    }
                },
                None => {},
            }
        },
    }
}

/// No match of a pattern beginning with `<` starts inside a text without `<`.
proof fn lemma_no_match_without_lt(p: Seq<char>, t: Seq<char>, pat: Seq<char>)
    requires
        no_lt(p),
        pat.len() > 0,
        pat[0] == '<',
    ensures
        forall|j: int| 0 <= j < p.len() ==> !matches_at(p + t, pat, j),
{
    assert forall|j: int| 0 <= j < p.len() implies !matches_at(p + t, pat, j) by {
        if matches_at(p + t, pat, j) {
            assert((p + t).subrange(j, j + pat.len())[0] == pat[0]);
            assert((p + t)[j] == p[j]);
        }
    }
}

/// The scripts of `p + t` are those of `t` when no `<script` starts in `p`.
proof fn lemma_bodies_past(p: Seq<char>, t: Seq<char>)
    requires
        forall|j: int| 0 <= j < p.len() ==> !matches_at(p + t, "<script"@, j),
    ensures
        inline_script_bodies(p + t) == inline_script_bodies(t),
{
    lemma_find_past(p, t, "<script"@);
    lemma_find_from(t, "<script"@, 0);
    match find(t, "<script"@) {
        Some(o) => {
            assert((p + t).subrange(o + p.len(), (p + t).len() as int) =~= t.subrange(o, t.len() as int));
        },
        None => {},
    }
}

/// A closing tag opens no script: the scripts after it are those of `q`.
proof fn lemma_close_tag_skips(q: Seq<char>)
    ensures
        inline_script_bodies("</script>"@ + q) == inline_script_bodies(q),
{
    reveal_strlit("<script");
    reveal_strlit("</script>");
    let et = "</script>"@;
    let open_tag = "<script"@;
    assert forall|j: int| 0 <= j < et.len() implies !matches_at(et + q, open_tag, j) by {
        if matches_at(et + q, open_tag, j) {
            let w = (et + q).subrange(j, j + 7);
            assert(w[0] == open_tag[0]);
            assert(w[1] == open_tag[1]);
            assert(w[0] == et[j]);
            if j == 0 {
                assert(w[1] == et[1]);
            }
        }
    }
    lemma_bodies_past(et, q);
}

/// `<script>` opens an inline script: its tag ends at the `>` and carries
/// no ` src=`.
proof fn lemma_open_tag(x: Seq<char>)
    requires
        x.len() >= 8,
        x.subrange(0, 8) == "<script>"@,
    ensures
        find(x, "<script"@) == Some(0int),
        find_char(x, '>') == Some(7int),
        !contains(x.subrange(0, 8), " src="@),
{
    reveal_strlit("<script");
    reveal_strlit("<script>");
    reveal_strlit(" src=");
    let st = "<script>"@;
    let open_tag = "<script"@;
    assert(x.subrange(0, 7) =~= open_tag) by {
        assert forall|i: int| 0 <= i < 7 implies x.subrange(0, 7)[i] == open_tag[i] by {
            assert(x[i] == x.subrange(0, 8)[i]);
        }
    }
    assert(matches_at(x, open_tag, 0));
    lemma_find_char_from(x, '>', 0);
    assert(x[7] == x.subrange(0, 8)[7]);
    match find_char(x, '>') {
        Some(i) => {
            if i < 7 {
                assert(x[i] == x.subrange(0, 8)[i]);
            }
        },
        None => {},
    }
    let tag = x.subrange(0, 8);
    lemma_find_from(tag, " src="@, 0);
    if contains(tag, " src="@) {
        let i = find(tag, " src="@)->0;
        assert(tag.subrange(i, i + 5)[0] == " src="@[0]);
    }
}

/// One inline script, then `q`: its body, then the scripts of `q`.
proof fn lemma_one_script(b: Seq<char>, q: Seq<char>)
    requires
        no_lt(b),
        trim_ws(b).len() > 0,
    ensures
        inline_script_bodies("<script>"@ + b + "</script>"@ + q) == seq![b] + inline_script_bodies(q),
{
    reveal_strlit("</script>");
    reveal_strlit("<script>");
    let st = "<script>"@;
    let et = "</script>"@;
    let x = st + b + et + q;
    assert(x.subrange(0, 8) =~= st);
    lemma_open_tag(x);
    assert(x.subrange(0, x.len() as int) =~= x);
    let after = x.subrange(8, x.len() as int);
    assert(after =~= b + (et + q));
    lemma_no_match_without_lt(b, et + q, et);
    lemma_find_past(b, et + q, et);
    assert((et + q).subrange(0, 9) =~= et);
    assert(matches_at(et + q, et, 0));
    assert(find(et + q, et) == Some(0int));
    assert(find(after, et) == Some(b.len() as int));
    assert(after.subrange(0, b.len() as int) =~= b);
    assert(after.subrange(b.len() as int, after.len() as int) =~= et + q);
    lemma_close_tag_skips(q);
}

/// Every inline script of a page is found, in order: on a page of inline
/// `<script>` elements with non-blank bodies, separated by text, and no
/// other markup opening with `<`, the extracted bodies are exactly the
/// scripts' bodies, one per script.
pub proof fn lemma_every_inline_script_is_found(gaps: Seq<Seq<char>>, bodies: Seq<Seq<char>>, tail: Seq<char>)
    requires
        gaps.len() == bodies.len(),
        forall|i: int| 0 <= i < gaps.len() ==> no_lt(#[trigger] gaps[i]),
        forall|i: int| 0 <= i < bodies.len() ==> no_lt(#[trigger] bodies[i]),
        forall|i: int| 0 <= i < bodies.len() ==> trim_ws(#[trigger] bodies[i]).len() > 0,
        no_lt(tail),
    ensures
        inline_script_bodies(script_page(gaps, bodies, tail)) == bodies,
    decreases bodies.len(),
{
    reveal_strlit("<script");
    let open_tag = "<script"@;
    if bodies.len() == 0 {
        lemma_find_from(tail, open_tag, 0);
        if find(tail, open_tag) is Some {
            let i = find(tail, open_tag)->0;
            assert(tail.subrange(i, i + 7)[0] == open_tag[0]);
        }
        assert(bodies =~= Seq::<Seq<char>>::empty());
    } else {
        let g = gaps[0];
        let b = bodies[0];
        let q = script_page(gaps.drop_first(), bodies.drop_first(), tail);
        assert forall|i: int| 0 <= i < gaps.drop_first().len() implies no_lt(#[trigger] gaps.drop_first()[i]) by {
            assert(gaps.drop_first()[i] == gaps[i + 1]);
        }
        assert forall|i: int| 0 <= i < bodies.drop_first().len() implies no_lt(#[trigger] bodies.drop_first()[i])
            && trim_ws(bodies.drop_first()[i]).len() > 0 by {
            assert(bodies.drop_first()[i] == bodies[i + 1]);
        }
        lemma_every_inline_script_is_found(gaps.drop_first(), bodies.drop_first(), tail);
        let x = "<script>"@ + b + "</script>"@ + q;
        assert(script_page(gaps, bodies, tail) =~= g + x);
        assert(no_lt(g));
        assert(open_tag[0] == '<');
        lemma_no_match_without_lt(g, x, open_tag);
        lemma_bodies_past(g, x);
        assert(no_lt(b));
        lemma_one_script(b, q);
        assert(bodies =~= seq![b] + bodies.drop_first());
    }
}

/// Extract the bodies of inline `<script>` elements, so their hashes can be
/// pinned in the CSP.
pub fn inline_scripts(html: &str) -> (scripts: Vec<&str>)
    ensures
        str_views(scripts@) == inline_script_bodies(html@),
{
    let v = chars_of(html);
    let open_tag = chars_of("<script");
    let close_tag = chars_of("</script>");
    let src_attr = chars_of(" src=");
    let mut scripts: Vec<&str> = Vec::new();
    let mut pos: usize = 0;
    assert(v@.subrange(0, v@.len() as int) =~= v@);
    loop
        invariant
            pos <= v@.len(),
            v@ == html@,
            open_tag@ == "<script"@,
            close_tag@ == "</script>"@,
            src_attr@ == " src="@,
            inline_script_bodies(html@) == str_views(scripts@) + inline_script_bodies(v@.subrange(pos as int, v@.len() as int)),
        decreases v@.len() - pos,
    {
        let rest = &v.as_slice()[pos..v.len()];
        let ghost tail = rest@;
        let o = match search_from(rest, open_tag.as_slice(), 0) {
            Some(o) => o,
            None => {
                proof { assert(str_views(scripts@) + Seq::<Seq<char>>::empty() =~= str_views(scripts@)); }
                return scripts;
            },
        };
        proof { lemma_find_from(rest@, open_tag@, 0); }
        let r = &rest[o..rest.len()];
        let te = match position_of(r, '>') {
            Some(te) => te,
            None => {
                proof { assert(str_views(scripts@) + Seq::<Seq<char>>::empty() =~= str_views(scripts@)); }
                return scripts;
            },
        };
        proof { lemma_find_char_from(r@, '>', 0); }
        let tag = &r[0..te + 1];
        let after = &r[te + 1..r.len()];
        let c = match search_from(after, close_tag.as_slice(), 0) {
            Some(c) => c,
            None => {
                proof { assert(str_views(scripts@) + Seq::<Seq<char>>::empty() =~= str_views(scripts@)); }
                return scripts;
            },
        };
        proof { lemma_find_from(after@, close_tag@, 0); }
        let body = &after[0..c];
        let external = search_from(tag, src_attr.as_slice(), 0).is_some();
        let (a, b) = trim_bounds(body);
        let start = pos + o + te + 1;
        let ghost before = str_views(scripts@);
        proof {
            assert(body@ =~= html@.subrange(start as int, start + c));
            assert(after@.subrange(c as int, after@.len() as int) =~= v@.subrange(start + c, v@.len() as int));
        }
        if !external && a < b {
            let script = html.substring_char(start, start + c);
            scripts.push(script);
            proof {
                assert(str_views(scripts@) =~= before + seq![body@]);
            }
        } else {
            proof {
                assert(str_views(scripts@) =~= before);
            }
        }
        pos = start + c;
    }
}

/// The CSP source expressions pinning each script by its SHA-256:
/// ` 'sha256-<base64>'` per script, in order.
pub open spec fn script_pins(scripts: Seq<Seq<char>>) -> Seq<char>
    decreases scripts.len(),
{
    if scripts.len() == 0 {
        Seq::empty()
    } else {
        script_pins(scripts.drop_last()) + " 'sha256-"@
            + b64std_text(sha256_digest(vstd::utf8::encode_utf8(scripts.last()))) + "'"@
    }
}

/// The Content-Security-Policy for a page whose shipped `index.html` is
/// `index_html`: only this origin, plus the hash of every inline script the
/// page carries; no `'unsafe-inline'`, plugins, base rewriting or framing,
/// and `connect-src 'self'` so a compromised page cannot post plaintext
/// elsewhere. `wasm-unsafe-eval` is what instantiating the WebAssembly
/// module needs.
pub open spec fn policy_text(index_html: Option<Seq<char>>) -> Seq<char> {
    let scripts = match index_html {
        Some(h) => inline_script_bodies(h),
        None => Seq::empty(),
    };
    "default-src 'self'; script-src "@ + "'self' 'wasm-unsafe-eval'"@ + script_pins(scripts)
        + "; style-src 'self'; font-src 'self'; img-src 'self' data: blob:; connect-src 'self'; object-src 'none'; base-uri 'none'; form-action 'self'; frame-ancestors 'none'"@
}

/// No quote in `s` is directly followed by a `u`: so `s` holds no quoted
/// source expression beginning with `u`, `'unsafe-inline'` among them.
pub open spec fn no_quoted_u(s: Seq<char>) -> bool {
    forall|i: int| 0 <= i < s.len() - 1 && #[trigger] s[i] == '\'' ==> s[i + 1] != 'u'
}

/// No character of a standard base64 text is a quote.
proof fn lemma_b64std_has_no_quote(bytes: Seq<u8>)
    ensures
        forall|i: int| 0 <= i < b64std_text(bytes).len() ==> #[trigger] b64std_text(bytes)[i] != '\'',
    decreases bytes.len(),
{
    let t = b64std_text(bytes);
    if bytes.len() >= 3 {
        let rest = bytes.subrange(3, bytes.len() as int);
        lemma_b64std_has_no_quote(rest);
        assert forall|i: int| 0 <= i < t.len() implies #[trigger] t[i] != '\'' by {
            if i >= 4 {
                assert(t[i] == b64std_text(rest)[i - 4]);
            }
        }
    }
}

/// Joining two texts keeps quotes free of a following `u`, unless the
/// first ends in a quote and the second begins with `u`.
proof fn lemma_no_quoted_u_concat(a: Seq<char>, b: Seq<char>)
    requires
        no_quoted_u(a),
        no_quoted_u(b),
        a.len() > 0 && a.last() == '\'' && b.len() > 0 ==> b[0] != 'u',
    ensures
        no_quoted_u(a + b),
{
    let s = a + b;
    assert forall|i: int| 0 <= i < s.len() - 1 && #[trigger] s[i] == '\'' implies s[i + 1] != 'u' by {
        if i < a.len() - 1 {
            assert(s[i] == a[i]);
            assert(s[i + 1] == a[i + 1]);
        } else if i == a.len() - 1 {
            assert(s[i + 1] == b[0]);
        } else {
            assert(s[i] == b[i - a.len()]);
            assert(s[i + 1] == b[i + 1 - a.len()]);
        }
    }
}

/// The pins hold no quote followed by a `u`; when there are any, they
/// begin with a space and end with a quote.
proof fn lemma_pins_have_no_quoted_u(scripts: Seq<Seq<char>>)
    ensures
        no_quoted_u(script_pins(scripts)),
        scripts.len() > 0 ==> script_pins(scripts).len() > 0 && script_pins(scripts)[0] == ' '
            && script_pins(scripts).last() == '\'',
        scripts.len() == 0 ==> script_pins(scripts).len() == 0,
    decreases scripts.len(),
{
    if scripts.len() > 0 {
        let before = script_pins(scripts.drop_last());
        lemma_pins_have_no_quoted_u(scripts.drop_last());
        let open_pin = " 'sha256-"@;
        let close_pin = "'"@;
        let b = b64std_text(sha256_digest(vstd::utf8::encode_utf8(scripts.last())));
        reveal_strlit(" 'sha256-");
        reveal_strlit("'");
        lemma_b64std_has_no_quote(sha256_digest(vstd::utf8::encode_utf8(scripts.last())));
        assert(no_quoted_u(open_pin));
        assert(no_quoted_u(b));
        lemma_no_quoted_u_concat(open_pin, b);
        let head = open_pin + b;
        assert(head.last() != '\'') by {
            if b.len() > 0 {
                assert(head.last() == b[b.len() - 1]);
            }
        }
        assert(no_quoted_u(close_pin));
        lemma_no_quoted_u_concat(head, close_pin);
        let piece = head + close_pin;
        assert(piece[0] == ' ');
        lemma_no_quoted_u_concat(before, piece);
        assert(script_pins(scripts) == before + piece);
        if before.len() > 0 {
            assert((before + piece)[0] == before[0]);
        }
    }
}

/// The policy never allows `'unsafe-inline'`: inline scripts run only by
/// the hash pinned for each.
pub proof fn lemma_policy_never_unsafe_inline(index_html: Option<Seq<char>>)
    ensures
        !contains(policy_text(index_html), "'unsafe-inline'"@),
{
    let scripts = match index_html {
        Some(h) => inline_script_bodies(h),
        None => Seq::empty(),
    };
    let a = "default-src 'self'; script-src "@;
    let b = "'self' 'wasm-unsafe-eval'"@;
    let c = "; style-src 'self'; font-src 'self'; img-src 'self' data: blob:; connect-src 'self'; object-src 'none'; base-uri 'none'; form-action 'self'; frame-ancestors 'none'"@;
    let pins = script_pins(scripts);
    reveal_strlit("default-src 'self'; script-src ");
    reveal_strlit("'self' 'wasm-unsafe-eval'");
    reveal_strlit("; style-src 'self'; font-src 'self'; img-src 'self' data: blob:; connect-src 'self'; object-src 'none'; base-uri 'none'; form-action 'self'; frame-ancestors 'none'");
    reveal_strlit("'unsafe-inline'");
    assert(no_quoted_u(a));
    assert(no_quoted_u(b));
    assert(no_quoted_u(c));
    lemma_pins_have_no_quoted_u(scripts);
    lemma_no_quoted_u_concat(a, b);
    lemma_no_quoted_u_concat(a + b, pins);
    let abp = a + b + pins;
    assert(abp.last() == '\'') by {
        if pins.len() > 0 {
            assert(abp.last() == pins.last());
        } else {
            assert(abp =~= a + b);
        }
    }
    lemma_no_quoted_u_concat(abp, c);
    let s = abp + c;
    assert(s == policy_text(index_html));
    let pat = "'unsafe-inline'"@;
    lemma_find_from(s, pat, 0);
    if contains(s, pat) {
        let i = find(s, pat)->0;
        assert(matches_at(s, pat, i));
        assert(s.subrange(i, i + pat.len())[0] == pat[0]);
        assert(s.subrange(i, i + pat.len())[1] == pat[1]);
        assert(s[i] == '\'');
        assert(s[i + 1] == 'u');
        assert(false);
    }
}

/// Build the Content-Security-Policy, pinning the hash of every inline
/// script found in the shipped `index.html`.
pub fn content_security_policy(index_html: Option<&str>) -> (policy: String)
    ensures
        policy@ == policy_text(opt_str(index_html)),
{
    let mut script_src = "'self' 'wasm-unsafe-eval'".to_owned();
    let scripts: Vec<&str> = match index_html {
        Some(h) => inline_scripts(h),
        None => Vec::new(),
    };
    let ghost all = str_views(scripts@);
    let mut i: usize = 0;
    while i < scripts.len()
        invariant
            i <= scripts@.len(),
            all == str_views(scripts@),
            script_src@ == "'self' 'wasm-unsafe-eval'"@ + script_pins(all.subrange(0, i as int)),
        decreases scripts@.len() - i,
    {
        let digest = util::sha256(scripts[i].as_bytes());
        let encoded = b64std_encode(&digest);
        script_src.append(" 'sha256-");
        script_src.append(encoded.as_str());
        script_src.append("'");
        proof {
            assert(all.subrange(0, i + 1).drop_last() =~= all.subrange(0, i as int));
            assert(all.subrange(0, i + 1).last() == scripts@[i as int]@);
        }
        i += 1;
        proof {
            assert(script_src@ =~= "'self' 'wasm-unsafe-eval'"@ + script_pins(all.subrange(0, i as int)));
        }
    }
    let mut policy = "default-src 'self'; script-src ".to_owned();
    policy.append(script_src.as_str());
    policy.append("; style-src 'self'; font-src 'self'; img-src 'self' data: blob:; connect-src 'self'; object-src 'none'; base-uri 'none'; form-action 'self'; frame-ancestors 'none'");
    proof {
        assert(all.subrange(0, all.len() as int) =~= all);
        assert(policy@ =~= policy_text(opt_str(index_html)));
    }
    policy
}

/// The plain value of an optional string slice.
pub open spec fn opt_str(s: Option<&str>) -> Option<Seq<char>> {
    match s {
        Some(t) => Some(t@),
        None => None,
    }
}

/// `s` with every occurrence of `pat`, scanned left to right without
/// overlap, replaced by `with` (`str::replace`).
pub open spec fn replace_all(s: Seq<char>, pat: Seq<char>, with: Seq<char>) -> Seq<char>
    decreases s.len(),
{
    match find(s, pat) {
        Some(i) => if pat.len() > 0 && 0 <= i && i + pat.len() <= s.len() {
            s.subrange(0, i) + with + replace_all(s.subrange(i + pat.len(), s.len() as int), pat, with)
        } else {
            s
        },
        None => s,
    }
}

/// The placeholder the shipped page carries where its absolute URLs go.
pub open spec fn public_url_placeholder() -> Seq<char> {
    "__PUBLIC_URL__"@
}

/// A page without the placeholder renders unchanged, whatever the origin.
pub proof fn lemma_render_without_placeholder(page: Seq<char>, with: Seq<char>)
    requires
        !contains(page, public_url_placeholder()),
    ensures
        replace_all(page, public_url_placeholder(), with) == page,
{
}

/// Substitute every `__PUBLIC_URL__` placeholder in the shipped page with
/// `public_url`, less any trailing `/`. A page without the placeholder is
/// returned unchanged.
pub fn render_index_html(index_html: &str, public_url: &str) -> (page: String)
    ensures
        page@ == replace_all(index_html@, public_url_placeholder(), trim_end_char(public_url@, '/')),
{
    let origin = trim_end_matches_char(public_url, '/');
    let v = chars_of(index_html);
    let pat = chars_of("__PUBLIC_URL__");
    proof { reveal_strlit("__PUBLIC_URL__"); }
    let ghost with = origin@;
    let mut page = String::new();
    let mut pos: usize = 0;
    assert(v@.subrange(0, v@.len() as int) =~= v@);
    loop
        invariant
            pos <= v@.len(),
            v@ == index_html@,
            pat@ == public_url_placeholder(),
            pat@.len() > 0,
            with == origin@,
            origin@ == trim_end_char(public_url@, '/'),
            page@ + replace_all(v@.subrange(pos as int, v@.len() as int), pat@, with)
                == replace_all(index_html@, pat@, with),
        decreases v@.len() - pos,
    {
        let rest = &v.as_slice()[pos..v.len()];
        match search_from(rest, pat.as_slice(), 0) {
            Some(i) => {
                proof { lemma_find_from(rest@, pat@, 0); }
                let head = string_of(&rest[0..i]);
                page.append(head.as_str());
                page.append(origin.as_str());
                proof {
                    assert(rest@.subrange(i + pat@.len(), rest@.len() as int)
                        =~= v@.subrange(pos + i + pat@.len(), v@.len() as int));
                }
                pos = pos + i + pat.len();
            },
            None => {
                let tail = string_of(rest);
                let ghost done = page@;
                page.append(tail.as_str());
                proof {
                    assert(rest@ =~= v@.subrange(pos as int, v@.len() as int));
                    assert(replace_all(rest@, pat@, with) == rest@);
                    assert(page@ == done + rest@);
                }
                return page;
            },
        }
    }
}

/// Server limits and auth state, as the frontend fetches them at boot.
pub fn server_info(config: &Config, session: &Option<Session>) -> (info: ServerInfo)
    ensures
        info.max_file_size == config.max_file_size,
        info.min_expiry_secs == MIN_EXPIRY_SECS,
        info.max_expiry_secs == clamp(config.max_expiry as int, MIN_EXPIRY_SECS as int, MAX_EXPIRY_SECS as int),
        info.default_expiry_secs == config.default_expiry,
        info.max_downloads == clamp(config.max_downloads as int, 1, MAX_DOWNLOADS as int),
        info.default_max_downloads == DEFAULT_MAX_DOWNLOADS,
        info.auth_mode@ == mode_name(config.auth_mode),
        info.auth_required == (config.auth_mode != crate::server::config::AuthMode::Off),
        info.session is Some <==> session is Some,
        info.session matches Some(s) ==> s.subject@ == session->0.sub@
            && opt_view(s.email) == opt_view(session->0.email) && opt_view(s.name) == opt_view(session->0.name),
{
    ServerInfo {
        max_file_size: config.max_file_size,
        min_expiry_secs: MIN_EXPIRY_SECS,
        max_expiry_secs: config.effective_max_expiry(),
        default_expiry_secs: config.default_expiry,
        max_downloads: config.effective_max_downloads(),
        default_max_downloads: DEFAULT_MAX_DOWNLOADS,
        auth_mode: config.auth_mode.as_str().to_owned(),
        auth_required: config.auth_mode.enabled(),
        session: match session {
            Some(s) => Some(s.info()),
            None => None,
        },
    }
}

/// The readiness answer: `200 ok` when both stores respond, `503
/// unhealthy` otherwise.
pub fn health(meta_ok: bool, blobs_ok: bool) -> (answer: (u16, &'static str))
    ensures
        answer.0 == if meta_ok && blobs_ok { 200u16 } else { 503u16 },
        answer.1@ == if meta_ok && blobs_ok { "ok"@ } else { "unhealthy"@ },
{
    if meta_ok && blobs_ok {
        (200, "ok")
    } else {
        (503, "unhealthy")
    }
}

} // verus!
