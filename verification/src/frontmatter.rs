//! YAML-style frontmatter of a skill file: a block that opens with `---` at the
//! very start of the text and ends at the next `---`, holding `key: value`
//! lines. A value of `>` (or an empty value) is a folded block: the indented
//! lines that follow it, trimmed and joined by single spaces.
use vstd::prelude::*;

use crate::intent::{category_label, IntentCategory};
use crate::text::{
    chars_of, find, find_in_window, join, lemma_find_from_first, lemma_join_push, line_windows,
    lines, occurs_at, starts_with, str_eq, trim, trim_char_window, trim_matches, trim_start,
    trim_start_window, trim_window, window_starts_with, windows,
};

verus! {

/// The `---` marker that opens and closes a frontmatter block.
pub open spec fn dashes() -> Seq<char> {
    seq!['-', '-', '-']
}

/// The text between the opening `---` and the next `---`, if `content` has a
/// frontmatter block.
pub open spec fn frontmatter(content: Seq<char>) -> Option<Seq<char>> {
    if !starts_with(content, dashes()) {
        None
    } else {
        match find(content.skip(3), dashes()) {
            Some(end) => Some(content.subrange(3, 3 + end as int)),
            None => None,
        }
    }
}

/// `content` without its frontmatter block and the whitespace after it; unchanged
/// when it has no complete block.
pub open spec fn strip_frontmatter_spec(content: Seq<char>) -> Seq<char> {
    if !starts_with(content, dashes()) {
        content
    } else {
        match find(content.skip(3), dashes()) {
            Some(end) => trim_start(content.skip(3 + end as int + 3)),
            None => content,
        }
    }
}

/// Index of the first line at or after `k` whose trimmed text starts with `prefix`.
pub open spec fn first_prefixed_from(ls: Seq<Seq<char>>, prefix: Seq<char>, k: int) -> Option<int>
    decreases ls.len() - k,
{
    if k < 0 || k >= ls.len() {
        None
    } else if starts_with(trim(ls[k]), prefix) {
        Some(k)
    } else {
        first_prefixed_from(ls, prefix, k + 1)
    }
}

/// A continuation line of a folded block starts with a space or a tab.
pub open spec fn indented(l: Seq<char>) -> bool {
    l.len() > 0 && (l[0] == ' ' || l[0] == '\t')
}

/// Number of leading indented lines.
pub open spec fn indented_run(ls: Seq<Seq<char>>) -> nat
    decreases ls.len(),
{
    if ls.len() > 0 && indented(ls[0]) {
        1 + indented_run(ls.drop_first())
    } else {
        0
    }
}

/// The raw value on line `k` after `prefix`: trimmed, then stripped of double and
/// then single quotes.
pub open spec fn inline_value(line: Seq<char>, prefix: Seq<char>) -> Seq<char> {
    trim_matches(trim_matches(trim(trim(line).skip(prefix.len() as int)), '"'), '\'')
}

/// The folded value made of the indented lines that follow the key.
pub open spec fn folded_value(after: Seq<Seq<char>>) -> Seq<char> {
    join(after.take(indented_run(after) as int).map_values(|l: Seq<char>| trim(l)), seq![' '])
}

/// The value of the first line of `ls` that carries `prefix`.
pub open spec fn field_value(ls: Seq<Seq<char>>, prefix: Seq<char>) -> Option<Seq<char>> {
    match first_prefixed_from(ls, prefix, 0) {
        None => None,
        Some(k) => {
            let val = inline_value(ls[k], prefix);
            if val == seq!['>'] || val.len() == 0 {
                let rest = folded_value(ls.skip(k + 1));
                if rest.len() == 0 {
                    None
                } else {
                    Some(rest)
                }
            } else {
                Some(val)
            }
        },
    }
}

/// The value of `key` in the frontmatter of `content`.
pub open spec fn extract_field_spec(content: Seq<char>, key: Seq<char>) -> Option<Seq<char>> {
    match frontmatter(content) {
        None => None,
        Some(fm) => field_value(lines(fm), key.push(':')),
    }
}

pub open spec fn opt_view(o: Option<String>) -> Option<Seq<char>> {
    match o {
        Some(s) => Some(s@),
        None => None,
    }
}

/// What `str::to_lowercase` returns for a string: its Unicode lowercase mapping.
pub uninterp spec fn to_lowercase(s: Seq<char>) -> Seq<char>;

/// Calls `str::to_lowercase`. Claimed: the result is a function of the text alone
/// (named `to_lowercase`); nothing more is stated of the Unicode case tables.
#[verifier::external_body]
fn lowercase(s: &str) -> (r: String)
    ensures
        r@ == to_lowercase(s@),
{
    s.to_lowercase()
}

/// The intent category that a lowercased frontmatter value names.
pub open spec fn category_named(s: Seq<char>) -> Option<IntentCategory> {
    if s == "polymarket-read"@ || s == "polymarket_read"@ {
        Some(IntentCategory::PolymarketRead)
    } else if s == "polymarket-trade"@ || s == "polymarket_trade"@ {
        Some(IntentCategory::PolymarketTrade)
    } else if s == "crypto"@ || s == "crypto-tokens"@ || s == "crypto_tokens"@ {
        Some(IntentCategory::CryptoTokens)
    } else if s == "system"@ {
        Some(IntentCategory::System)
    } else if s == "research"@ {
        Some(IntentCategory::Research)
    } else if s == "general"@ {
        Some(IntentCategory::General)
    } else {
        None
    }
}

/// The boolean that a lowercased frontmatter value names.
pub open spec fn flag_named(s: Seq<char>) -> Option<bool> {
    if s == "true"@ || s == "yes"@ {
        Some(true)
    } else if s == "false"@ || s == "no"@ {
        Some(false)
    } else {
        None
    }
}

/// The `intent-category` of `content`, parsed.
pub open spec fn intent_category_spec(content: Seq<char>) -> Option<IntentCategory> {
    match extract_field_spec(content, "intent-category"@) {
        None => None,
        Some(raw) => category_named(to_lowercase(raw)),
    }
}

/// The `user-invocable` flag of `content`, parsed.
pub open spec fn user_invocable_spec(content: Seq<char>) -> Option<bool> {
    match extract_field_spec(content, "user-invocable"@) {
        None => None,
        Some(raw) => flag_named(to_lowercase(raw)),
    }
}

proof fn lemma_indented_run_at(ls: Seq<Seq<char>>, m: int)
    requires
        0 <= m <= ls.len(),
        forall|j: int| 0 <= j < m ==> indented(#[trigger] ls[j]),
        m == ls.len() || !indented(ls[m]),
    ensures
        indented_run(ls) == m,
    decreases m,
{
    if m > 0 {
        lemma_indented_run_at(ls.drop_first(), m - 1);
    }
}

fn dash_marker() -> (d: Vec<char>)
    ensures
        d@ == dashes(),
{
    let d = vec!['-', '-', '-'];
    assert(d@ =~= dashes());
    d
}

/// Remove YAML frontmatter from markdown content.
pub fn strip_frontmatter(content: &str) -> (r: String)
    ensures
        r@ == strip_frontmatter_spec(content@),
{
    let v = chars_of(content);
    let d = dash_marker();
    let n = v.len();
    assert(v@.subrange(0, n as int) =~= v@);
    if !window_starts_with(&v, 0, n, &d) {
        return content.to_owned();
    }
    assert(v@.subrange(3, n as int) =~= v@.skip(3));
    match find_in_window(&v, 3, n, &d) {
        Some(end) => {
            proof {
                let s = v@.skip(3);
                assert(occurs_at(s, dashes(), end as int)) by {
                    lemma_find_from_first(s, dashes(), 0);
                }
            }
            let a = trim_start_window(&v, 3 + end + 3, n);
            assert(v@.subrange(3 + end + 3, n as int) =~= v@.skip(3 + end + 3));
            content.substring_char(a, n).to_owned()
        },
        None => content.to_owned(),
    }
}

/// Generic field extractor for simple `key: value` YAML frontmatter.
///
/// Handles both single-line values and multi-line folded block scalars (`>`).
pub fn extract_field(content: &str, key: &str) -> (r: Option<String>)
    ensures
        opt_view(r) == extract_field_spec(content@, key@),
{
    let v = chars_of(content);
    let d = dash_marker();
    let n = v.len();
    assert(v@.subrange(0, n as int) =~= v@);
    if !window_starts_with(&v, 0, n, &d) {
        return None;
    }
    assert(v@.subrange(3, n as int) =~= v@.skip(3));
    let end = match find_in_window(&v, 3, n, &d) {
        Some(end) => end,
        None => {
            return None;
        },
    };
    proof {
        lemma_find_from_first(v@.skip(3), dashes(), 0);
    }
    let fm_hi = 3 + end;
    let ghost fm = v@.subrange(3, fm_hi as int);
    let mut prefix = chars_of(key);
    prefix.push(':');
    let spans = line_windows(&v, 3, fm_hi);
    let ghost ls = lines(fm);
    assert(windows(v@, spans@) == ls);
    assert(spans.len() == ls.len());
    let mut k: usize = 0;
    while k < spans.len()
        invariant
            n == v.len(),
            v@ == content@,
            prefix@ == key@.push(':'),
            ls == lines(fm),
            windows(v@, spans@) == ls,
            spans.len() == ls.len(),
            forall|j: int| 0 <= j < spans.len() ==> 3 <= #[trigger] spans@[j].0 <= spans@[j].1 <= fm_hi,
            fm_hi <= n,
            k <= spans.len(),
            extract_field_spec(content@, key@) == match first_prefixed_from(ls, prefix@, k as int) {
                None => None,
                Some(k) => {
                    let val = inline_value(ls[k], prefix@);
                    if val == seq!['>'] || val.len() == 0 {
                        let rest = folded_value(ls.skip(k + 1));
                        if rest.len() == 0 {
                            None
                        } else {
                            Some(rest)
                        }
                    } else {
                        Some(val)
                    }
                },
            },
        decreases spans.len() - k,
    {
        let (s0, s1) = spans[k];
        assert(ls[k as int] == v@.subrange(s0 as int, s1 as int));
        let (a, b) = trim_window(&v, s0, s1);
        if window_starts_with(&v, a, b, &prefix) {
            assert(first_prefixed_from(ls, prefix@, k as int) == Some(k as int));
            let (c0, c1) = trim_window(&v, a + prefix.len(), b);
            assert(v@.subrange(a + prefix.len(), b as int) =~= v@.subrange(a as int, b as int).skip(
                prefix.len() as int,
            ));
            let (q0, q1) = trim_char_window(&v, c0, c1, '"');
            let (x0, x1) = trim_char_window(&v, q0, q1, '\'');
            assert(v@.subrange(x0 as int, x1 as int) == inline_value(ls[k as int], prefix@));
            let is_folded_marker = x1 - x0 == 1 && v[x0] == '>';
            proof {
                let val = v@.subrange(x0 as int, x1 as int);
                if is_folded_marker {
                    assert(val =~= seq!['>']);
                } else if val.len() == 1 {
                    assert(val[0] == v@[x0 as int]);
                    assert(val != seq!['>']);
                }
            }
            if is_folded_marker || x1 == x0 {
                return folded(content, &v, &spans, k + 1);
            }
            return Some(content.substring_char(x0, x1).to_owned());
        }
        k = k + 1;
    }
    None
}

/// The folded value formed by the indented lines from line `from` on.
fn folded(content: &str, v: &Vec<char>, spans: &Vec<(usize, usize)>, from: usize) -> (r: Option<
    String,
>)
    requires
        v@ == content@,
        from <= spans.len(),
        forall|j: int| 0 <= j < spans.len() ==> #[trigger] spans@[j].0 <= spans@[j].1 <= v.len(),
    ensures
        opt_view(r) == ({
            let rest = folded_value(windows(v@, spans@).skip(from as int));
            if rest.len() == 0 {
                None
            } else {
                Some(rest)
            }
        }),
{
    let ghost after = windows(v@, spans@).skip(from as int);
    let mut out = String::new();
    let mut j = from;
    while j < spans.len() && spans[j].0 < spans[j].1 && (v[spans[j].0] == ' ' || v[spans[j].0]
        == '\t')
        invariant
            v@ == content@,
            from <= j <= spans.len(),
            after == windows(v@, spans@).skip(from as int),
            forall|i: int| 0 <= i < spans.len() ==> #[trigger] spans@[i].0 <= spans@[i].1 <= v.len(),
            forall|i: int| 0 <= i < j - from ==> indented(#[trigger] after[i]),
            out@ == join(
                after.take(j - from).map_values(|l: Seq<char>| trim(l)),
                seq![' '],
            ),
        decreases spans.len() - j,
    {
        let (s0, s1) = spans[j];
        let (a, b) = trim_window(v, s0, s1);
        let ghost prev = after.take(j - from).map_values(|l: Seq<char>| trim(l));
        proof {
            lemma_join_push(prev, seq![' '], trim(after[j - from]));
            assert(after.take(j + 1 - from).map_values(|l: Seq<char>| trim(l)) =~= prev.push(
                trim(after[j - from]),
            ));
            assert(after[j - from] == v@.subrange(s0 as int, s1 as int));
        }
        if j > from {
            out.append(" ");
            proof {
                reveal_strlit(" ");
            }
        }
        out.append(content.substring_char(a, b));
        assert(indented(after[j - from]));
        j = j + 1;
    }
    proof {
        let m = j - from;
        if j < spans.len() {
            assert(after[m] == v@.subrange(spans@[j as int].0 as int, spans@[j as int].1 as int));
        }
        lemma_indented_run_at(after, m);
    }
    if out.as_str().is_empty() {
        None
    } else {
        Some(out)
    }
}

/// Extract the `description` field from YAML frontmatter.
pub fn extract_description(content: &str) -> (r: Option<String>)
    ensures
        opt_view(r) == extract_field_spec(content@, "description"@),
{
    extract_field(content, "description")
}

/// Parse a lowercased `intent-category` value.
pub fn category_from_lowercase(lower: &str) -> (r: Option<IntentCategory>)
    ensures
        r == category_named(lower@),
{
    if str_eq(lower, "polymarket-read") || str_eq(lower, "polymarket_read") {
        Some(IntentCategory::PolymarketRead)
    } else if str_eq(lower, "polymarket-trade") || str_eq(lower, "polymarket_trade") {
        Some(IntentCategory::PolymarketTrade)
    } else if str_eq(lower, "crypto") || str_eq(lower, "crypto-tokens") || str_eq(
        lower,
        "crypto_tokens",
    ) {
        Some(IntentCategory::CryptoTokens)
    } else if str_eq(lower, "system") {
        Some(IntentCategory::System)
    } else if str_eq(lower, "research") {
        Some(IntentCategory::Research)
    } else if str_eq(lower, "general") {
        Some(IntentCategory::General)
    } else {
        None
    }
}

/// Parse a lowercased `user-invocable` value.
pub fn flag_from_lowercase(lower: &str) -> (r: Option<bool>)
    ensures
        r == flag_named(lower@),
{
    if str_eq(lower, "true") || str_eq(lower, "yes") {
        Some(true)
    } else if str_eq(lower, "false") || str_eq(lower, "no") {
        Some(false)
    } else {
        None
    }
}

/// Extract the `intent-category` field from YAML frontmatter and parse it into
/// an [`IntentCategory`].
pub fn extract_intent_category(content: &str) -> (r: Option<IntentCategory>)
    ensures
        r == intent_category_spec(content@),
{
    match extract_field(content, "intent-category") {
        None => None,
        Some(raw) => {
            let lower = lowercase(raw.as_str());
            category_from_lowercase(lower.as_str())
        },
    }
}

/// Extract the `user-invocable` boolean field from YAML frontmatter.
pub fn extract_user_invocable(content: &str) -> (r: Option<bool>)
    ensures
        r == user_invocable_spec(content@),
{
    match extract_field(content, "user-invocable") {
        None => None,
        Some(raw) => {
            let lower = lowercase(raw.as_str());
            flag_from_lowercase(lower.as_str())
        },
    }
}

/// Text without a complete frontmatter block (no leading `---`, or no closing
/// one) is left as it is by stripping, and holds no field.
pub proof fn law_no_frontmatter(content: Seq<char>, key: Seq<char>)
    requires
        frontmatter(content) is None,
    ensures
        strip_frontmatter_spec(content) == content,
        extract_field_spec(content, key) is None,
{
}

/// `v` with every `-` written as `_`.
pub open spec fn underscored(v: Seq<char>) -> Seq<char> {
    v.map_values(|c: char| if c == '-' { '_' } else { c })
}

proof fn lemma_category_literals() {
    reveal_strlit("polymarket-read");
    reveal_strlit("polymarket_read");
    reveal_strlit("polymarket-trade");
    reveal_strlit("polymarket_trade");
    reveal_strlit("crypto");
    reveal_strlit("crypto-tokens");
    reveal_strlit("crypto_tokens");
    reveal_strlit("system");
    reveal_strlit("research");
    reveal_strlit("general");
    reveal_strlit("prediction");
}

/// A value names a category exactly when, with every `-` written as `_`, it is
/// that category's label; the prediction category cannot be set from a skill
/// file, and the one short alias is `crypto` for the crypto-token category.
pub proof fn law_category_named_exactly(v: Seq<char>, c: IntentCategory)
    ensures
        category_named(v) == Some(c) <==> ((c != IntentCategory::Prediction && underscored(v)
            == category_label(c)) || (v == "crypto"@ && c == IntentCategory::CryptoTokens)),
{
    lemma_category_literals();
    reveal_strlit("polymarket-read");
    reveal_strlit("polymarket_read");
    reveal_strlit("polymarket-trade");
    reveal_strlit("polymarket_trade");
    reveal_strlit("crypto");
    reveal_strlit("crypto-tokens");
    reveal_strlit("crypto_tokens");
    reveal_strlit("system");
    reveal_strlit("research");
    reveal_strlit("general");
    reveal_strlit("prediction");
    let u = underscored(v);
    if v == "polymarket-read"@ || v == "polymarket_read"@ {
        assert(u =~= "polymarket_read"@);
    } else if v == "polymarket-trade"@ || v == "polymarket_trade"@ {
        assert(u =~= "polymarket_trade"@);
    } else if v == "crypto"@ {
        assert(u =~= "crypto"@);
    } else if v == "crypto-tokens"@ || v == "crypto_tokens"@ {
        assert(u =~= "crypto_tokens"@);
    } else if v == "system"@ {
        assert(u =~= "system"@);
    } else if v == "research"@ {
        assert(u =~= "research"@);
    } else if v == "general"@ {
        assert(u =~= "general"@);
    }
    assert(category_named(v) == Some(c) ==> ((c != IntentCategory::Prediction && u
        == category_label(c)) || (v == "crypto"@ && c == IntentCategory::CryptoTokens)));
    if c != IntentCategory::Prediction && u == category_label(c) {
        let l = category_label(c);
        assert(v.len() == l.len());
        assert(forall|i: int| 0 <= i < l.len() && l[i] != '_' ==> v[i] == l[i]) by {
            assert(forall|i: int| 0 <= i < l.len() ==> u[i] == l[i]);
        }
        assert(forall|i: int| 0 <= i < l.len() && l[i] == '_' ==> v[i] == '-' || v[i] == '_') by {
            assert(forall|i: int| 0 <= i < l.len() ==> u[i] == l[i]);
        }
        match c {
            IntentCategory::PolymarketRead => {
                if v[10] == '-' {
                    assert(v =~= "polymarket-read"@);
                } else {
                    assert(v =~= "polymarket_read"@);
                }
            },
            IntentCategory::PolymarketTrade => {
                if v[10] == '-' {
                    assert(v =~= "polymarket-trade"@);
                } else {
                    assert(v =~= "polymarket_trade"@);
                }
            },
            IntentCategory::CryptoTokens => {
                if v[6] == '-' {
                    assert(v =~= "crypto-tokens"@);
                } else {
                    assert(v =~= "crypto_tokens"@);
                }
            },
            IntentCategory::System => {
                assert(v =~= "system"@);
                assert(v[0] != "crypto"@[0]);
            },
            IntentCategory::Research => {
                assert(v =~= "research"@);
            },
            IntentCategory::General => {
                assert(v =~= "general"@);
                assert(v[0] != "polymarket-read"@[0]);
            },
            IntentCategory::Prediction => {},
        }
        assert(category_named(v) == Some(c));
    }
    if v == "crypto"@ && c == IntentCategory::CryptoTokens {
        assert(category_named(v) == Some(c));
    }
}

} // verus!
