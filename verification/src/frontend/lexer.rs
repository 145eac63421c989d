//! Emoji-aware lexer that tokenizes Peps source by Unicode grapheme cluster.
//!
//! The lexer reads the source one extended grapheme cluster at a time.
//! Spaces and tabs separate tokens, each newline becomes a statement
//! separator, `//` starts a comment that runs to the end of the line, and
//! every cluster that is not part of a token is reported. The language is
//! specified by [`lex_from`] over the cluster sequence.

use vstd::prelude::*;

use crate::common::diagnostic::Diagnostic;
use crate::common::graphemes::{
    byte_len, extended_graphemes, grapheme_texts, lemma_prefix_bytes, lemma_prefix_bytes_monotone,
    prefix_bytes, split_graphemes, Grapheme,
};
use crate::common::numeric::{digit_value, is_digit, Int};
use crate::common::source::{merged, Span};
use crate::common::text::{owned, push_char, push_str};
use crate::frontend::token::{KindView, Token, TokenKind, TokenView};
use vstd::utf8::encode_utf8;

verus! {

// ---------------------------------------------------------------------------
// Character classes of grapheme clusters
// ---------------------------------------------------------------------------

/// The cluster is exactly the character `c`.
pub open spec fn is_char(g: Seq<char>, c: char) -> bool {
    g.len() == 1 && g[0] == c
}

/// A space or a tab.
pub open spec fn is_blank(g: Seq<char>) -> bool {
    is_char(g, ' ') || is_char(g, '\t')
}

/// A line break: `\n`, `\r` or `\r\n`.
pub open spec fn is_newline(g: Seq<char>) -> bool {
    is_char(g, '\n') || is_char(g, '\r') || (g.len() == 2 && g[0] == '\r' && g[1] == '\n')
}

/// A keycap digit such as `5️⃣`: an ASCII digit, a variation selector and the keycap mark.
pub open spec fn is_keycap(g: Seq<char>) -> bool {
    g.len() == 3 && is_digit(g[0]) && g[1] == '\u{FE0F}' && g[2] == '\u{20E3}'
}

/// Keyword and operator clusters made of one character.
pub open spec fn one_char_kind(c: char) -> Option<TokenKind> {
    if c == '📢' { Some(TokenKind::Print) }
    else if c == '🤔' { Some(TokenKind::If) }
    else if c == '😐' { Some(TokenKind::Else) }
    else if c == '🔁' { Some(TokenKind::While) }
    else if c == '🛑' { Some(TokenKind::Break) }
    else if c == '🧭' { Some(TokenKind::In) }
    else if c == '🔢' { Some(TokenKind::Range) }
    else if c == '✅' { Some(TokenKind::Bool(true)) }
    else if c == '❌' { Some(TokenKind::Bool(false)) }
    else if c == '🟰' { Some(TokenKind::Assign) }
    else if c == '➕' { Some(TokenKind::Plus) }
    else if c == '➖' { Some(TokenKind::Minus) }
    else if c == '➗' { Some(TokenKind::Slash) }
    else if c == '🔓' { Some(TokenKind::BlockStart) }
    else if c == '🔒' { Some(TokenKind::BlockEnd) }
    else if c == '🔚' { Some(TokenKind::StatementEnd) }
    else if c == '📚' { Some(TokenKind::ListDelimiter) }
    else if c == '🤝' { Some(TokenKind::And) }
    else if c == '🔀' { Some(TokenKind::Or) }
    else if c == '🚫' { Some(TokenKind::Not) }
    else if c == '📏' { Some(TokenKind::ListLen) }
    else if c == '🔎' { Some(TokenKind::ListIndex) }
    else if c == '📥' { Some(TokenKind::ListAppend) }
    else if c == '🧩' { Some(TokenKind::Function) }
    else if c == '📞' { Some(TokenKind::Call) }
    else if c == '🔤' { Some(TokenKind::TextType) }
    else if c == '🔣' { Some(TokenKind::FloatType) }
    else if c == '🔄' { Some(TokenKind::Convert) }
    else if c == '🔐' { Some(TokenKind::Const) }
    else if c == '🔑' { Some(TokenKind::MapHas) }
    else { None }
}

/// Keyword and operator clusters written as a character followed by the
/// emoji variation selector `U+FE0F`.
pub open spec fn selector_kind(c: char) -> Option<TokenKind> {
    if c == '⏭' { Some(TokenKind::Continue) }
    else if c == '✖' { Some(TokenKind::Star) }
    else if c == '◀' { Some(TokenKind::Lt) }
    else if c == '▶' { Some(TokenKind::Gt) }
    else if c == '➡' { Some(TokenKind::Arrow) }
    else if c == '↩' { Some(TokenKind::Return) }
    else if c == '⌨' { Some(TokenKind::Input) }
    else if c == '☑' { Some(TokenKind::BoolType) }
    else if c == '🗺' { Some(TokenKind::MapDelimiter) }
    else { None }
}

/// The token kind of a single-cluster keyword or operator.
pub open spec fn fixed_kind(g: Seq<char>) -> Option<TokenKind> {
    if g.len() == 1 {
        one_char_kind(g[0])
    } else if g.len() == 2 && g[1] == '\u{FE0F}' {
        selector_kind(g[0])
    } else {
        None
    }
}

/// Two-cluster comparison operators.
pub open spec fn long_operator(a: Seq<char>, b: Seq<char>) -> Option<TokenKind> {
    if !is_char(b, '🟰') {
        None
    } else if is_char(a, '🟰') {
        Some(TokenKind::Eq)
    } else if is_char(a, '❌') {
        Some(TokenKind::NotEq)
    } else if a.len() == 2 && a[0] == '◀' && a[1] == '\u{FE0F}' {
        Some(TokenKind::LtEq)
    } else if a.len() == 2 && a[0] == '▶' && a[1] == '\u{FE0F}' {
        Some(TokenKind::GtEq)
    } else {
        None
    }
}

/// Whether a character lies in one of the emoji blocks.
pub open spec fn is_emoji_like(c: char) -> bool {
    let v = c as u32;
    (0x1F000 <= v && v <= 0x1FAFF) || (0x2600 <= v && v <= 0x27BF) || (0x2300 <= v && v <= 0x23FF)
        || (0x2B00 <= v && v <= 0x2BFF)
}

/// Whether a character is ASCII.
pub open spec fn is_ascii_char(c: char) -> bool {
    (c as u32) < 128
}

/// Clusters that are keywords, operators, delimiters or digits.
pub open spec fn is_reserved(g: Seq<char>) -> bool {
    fixed_kind(g).is_some() || is_char(g, '💬') || is_keycap(g)
}

/// An emoji identifier: not reserved, free of ASCII, and holding an emoji character.
pub open spec fn is_identifier_emoji(g: Seq<char>) -> bool {
    &&& !is_reserved(g)
    &&& forall|k: int| 0 <= k < g.len() ==> !is_ascii_char(#[trigger] g[k])
    &&& exists|k: int| 0 <= k < g.len() && is_emoji_like(#[trigger] g[k])
}

/// An ASCII letter or underscore: the start of an ASCII word.
pub open spec fn is_word_start(g: Seq<char>) -> bool {
    g.len() == 1 && (('a' <= g[0] && g[0] <= 'z') || ('A' <= g[0] && g[0] <= 'Z') || g[0] == '_')
}

/// An ASCII letter, digit or underscore: a character of an ASCII word.
pub open spec fn is_word_part(g: Seq<char>) -> bool {
    is_word_start(g) || (g.len() == 1 && is_digit(g[0]))
}

/// Every character of the cluster is an ASCII digit.
pub open spec fn all_ascii_digits(g: Seq<char>) -> bool {
    forall|k: int| 0 <= k < g.len() ==> is_digit(#[trigger] g[k])
}

/// The cluster as it appears in a message: control characters are escaped.
pub open spec fn printable(g: Seq<char>) -> Seq<char> {
    if is_char(g, '\n') {
        seq!['\\', 'n']
    } else if is_char(g, '\r') {
        seq!['\\', 'r']
    } else if is_char(g, '\t') {
        seq!['\\', 't']
    } else {
        g
    }
}

/// The message reported for a cluster that starts no token.
pub open spec fn invalid_message(g: Seq<char>) -> Seq<char> {
    if all_ascii_digits(g) {
        "ASCII digits are not allowed outside strings. Use emoji digits."@
    } else {
        "invalid character outside string literal: "@ + printable(g)
    }
}

// ---------------------------------------------------------------------------
// Runs of clusters
// ---------------------------------------------------------------------------

/// The first position at or after `i` that holds a line break (or the end).
pub open spec fn comment_end(gs: Seq<Seq<char>>, i: int) -> int
    decreases gs.len() - i,
{
    if i >= gs.len() || is_newline(gs[i]) { i } else { comment_end(gs, i + 1) }
}

/// The first position at or after `i` that holds `💬`, if any.
pub open spec fn string_close(gs: Seq<Seq<char>>, i: int) -> Option<int>
    decreases gs.len() - i,
{
    if i >= gs.len() { None } else if is_char(gs[i], '💬') { Some(i) } else { string_close(gs, i + 1) }
}

/// The first position at or after `i` that does not hold a keycap digit.
pub open spec fn digit_end(gs: Seq<Seq<char>>, i: int) -> int
    decreases gs.len() - i,
{
    if i >= gs.len() || !is_keycap(gs[i]) { i } else { digit_end(gs, i + 1) }
}

/// The first position at or after `i` that does not hold an ASCII word character.
pub open spec fn word_end(gs: Seq<Seq<char>>, i: int) -> int
    decreases gs.len() - i,
{
    if i >= gs.len() || !is_word_part(gs[i]) { i } else { word_end(gs, i + 1) }
}

/// The value of the keycap digits at positions `a..b`.
pub open spec fn keycap_value(gs: Seq<Seq<char>>, a: int, b: int) -> nat
    decreases b - a,
{
    if b <= a { 0 } else { keycap_value(gs, a, b - 1) * 10 + digit_value(gs[b - 1][0]) }
}

/// The ASCII digits of the keycaps at positions `a..b`.
pub open spec fn keycap_text(gs: Seq<Seq<char>>, a: int, b: int) -> Seq<char>
    decreases b - a,
{
    if b <= a { Seq::empty() } else { keycap_text(gs, a, b - 1).push(gs[b - 1][0]) }
}

/// The characters of the clusters at positions `a..b`.
pub open spec fn joined(gs: Seq<Seq<char>>, a: int, b: int) -> Seq<char>
    decreases b - a,
{
    if b <= a { Seq::empty() } else { joined(gs, a, b - 1) + gs[b - 1] }
}

/// A comment runs from `i` to the end of its line: to the next newline, or to
/// the end of the clusters.
pub proof fn lemma_comment_end(gs: Seq<Seq<char>>, i: int)
    ensures
        comment_end(gs, i) >= i,
        i <= gs.len() ==> comment_end(gs, i) <= gs.len(),
        comment_end(gs, i) >= gs.len() || is_newline(gs[comment_end(gs, i)]),
    decreases gs.len() - i,
{
    if !(i >= gs.len() || is_newline(gs[i])) {
        lemma_comment_end(gs, i + 1);
    }
}

/// The closing `💬` of a text found from `i` is a `💬` at or after `i`.
pub proof fn lemma_string_close(gs: Seq<Seq<char>>, i: int)
    ensures
        string_close(gs, i) matches Some(j) ==> i <= j < gs.len() && is_char(gs[j], '💬'),
    decreases gs.len() - i,
{
    if !(i >= gs.len()) && !is_char(gs[i], '💬') {
        lemma_string_close(gs, i + 1);
    }
}

/// A run of keycap digits from `i` ends within the clusters, is not empty when
/// it starts on a keycap, and stops before the next cluster that is not one.
pub proof fn lemma_digit_end(gs: Seq<Seq<char>>, i: int)
    ensures
        digit_end(gs, i) >= i,
        i <= gs.len() ==> digit_end(gs, i) <= gs.len(),
        i < gs.len() && is_keycap(gs[i]) ==> digit_end(gs, i) > i,
        digit_end(gs, i) >= gs.len() || !is_keycap(gs[digit_end(gs, i)]),
    decreases gs.len() - i,
{
    if !(i >= gs.len() || !is_keycap(gs[i])) {
        lemma_digit_end(gs, i + 1);
    }
}

/// A run of ASCII word characters from `i` ends at or after `i` and within
/// the clusters.
pub proof fn lemma_word_end(gs: Seq<Seq<char>>, i: int)
    ensures
        word_end(gs, i) >= i,
        i <= gs.len() ==> word_end(gs, i) <= gs.len(),
    decreases gs.len() - i,
{
    if !(i >= gs.len() || !is_word_part(gs[i])) {
        lemma_word_end(gs, i + 1);
    }
}

// ---------------------------------------------------------------------------
// The token language
// ---------------------------------------------------------------------------

/// One lexical item: a token covering clusters `a..=b`, or an error over `a..=b`.
pub enum Lexeme {
    /// A token of the given kind.
    Tok(KindView, int, int),
    /// An error with its message.
    Bad(Seq<char>, int, int),
}

/// The lexical items of the clusters from position `i` on.
pub open spec fn lex_from(gs: Seq<Seq<char>>, i: int) -> Seq<Lexeme>
    decreases gs.len() - i,
{
    if i < 0 || i >= gs.len() {
        Seq::empty()
    } else {
        let g = gs[i];
        if is_blank(g) {
            lex_from(gs, i + 1)
        } else if is_newline(g) {
            seq![Lexeme::Tok(KindView::Other(TokenKind::StatementEnd), i, i)] + lex_from(gs, i + 1)
        } else if is_char(g, '/') && i + 1 < gs.len() && is_char(gs[i + 1], '/') {
            proof { lemma_comment_end(gs, i + 2); }
            lex_from(gs, comment_end(gs, i + 2))
        } else if is_char(g, '💬') {
            proof { lemma_string_close(gs, i + 1); }
            match string_close(gs, i + 1) {
                Some(j) => seq![Lexeme::Tok(KindView::Text(joined(gs, i + 1, j)), i, j)] + lex_from(gs, j + 1),
                None => seq![Lexeme::Bad("unterminated string literal"@, i, gs.len() - 1)],
            }
        } else if i + 1 < gs.len() && long_operator(g, gs[i + 1]).is_some() {
            seq![Lexeme::Tok(KindView::Other(long_operator(g, gs[i + 1]).unwrap()), i, i + 1)]
                + lex_from(gs, i + 2)
        } else if is_keycap(g) {
            proof { lemma_digit_end(gs, i); }
            let j = digit_end(gs, i);
            if j + 1 < gs.len() && is_char(gs[j], '.') && is_keycap(gs[j + 1]) {
                proof { lemma_digit_end(gs, j + 1); }
                let k = digit_end(gs, j + 1);
                seq![Lexeme::Tok(
                    KindView::Flt(keycap_text(gs, i, j) + seq!['.'] + keycap_text(gs, j + 1, k)),
                    i,
                    k - 1,
                )] + lex_from(gs, k)
            } else {
                seq![Lexeme::Tok(KindView::Num(keycap_value(gs, i, j) as int), i, j - 1)] + lex_from(gs, j)
            }
        } else if fixed_kind(g).is_some() {
            seq![Lexeme::Tok(KindView::Other(fixed_kind(g).unwrap()), i, i)] + lex_from(gs, i + 1)
        } else if is_identifier_emoji(g) {
            seq![Lexeme::Tok(KindView::Ident(g), i, i)] + lex_from(gs, i + 1)
        } else if is_word_start(g) {
            proof { lemma_word_end(gs, i + 1); }
            let j = word_end(gs, i + 1);
            seq![Lexeme::Tok(KindView::Ident(joined(gs, i, j)), i, j - 1)] + lex_from(gs, j)
        } else {
            seq![Lexeme::Bad(invalid_message(g), i, i)] + lex_from(gs, i + 1)
        }
    }
}

/// Line and column (both one-based) at which cluster `i` starts.
pub open spec fn line_col(gs: Seq<Seq<char>>, i: int) -> (nat, nat)
    decreases i,
{
    if i <= 0 {
        (1, 1)
    } else {
        let (l, c) = line_col(gs, i - 1);
        if is_newline(gs[i - 1]) { (l + 1, 1) } else { (l, c + 1) }
    }
}

/// The source span of cluster `i`.
pub open spec fn cluster_span(gs: Seq<Seq<char>>, i: int) -> Span {
    Span {
        start: prefix_bytes(gs, i) as usize,
        end: prefix_bytes(gs, i + 1) as usize,
        line: line_col(gs, i).0 as usize,
        column: line_col(gs, i).1 as usize,
    }
}

/// The span of clusters `a..=b`.
pub open spec fn range_span(gs: Seq<Seq<char>>, a: int, b: int) -> Span {
    merged(cluster_span(gs, a), cluster_span(gs, b))
}

/// The span of the end-of-file token: empty, just past the last cluster.
pub open spec fn eof_span(gs: Seq<Seq<char>>) -> Span {
    Span {
        start: prefix_bytes(gs, gs.len() as int) as usize,
        end: prefix_bytes(gs, gs.len() as int) as usize,
        line: line_col(gs, gs.len() as int).0 as usize,
        column: line_col(gs, gs.len() as int).1 as usize,
    }
}

/// The tokens among lexical items, with their spans.
pub open spec fn tokens_of(gs: Seq<Seq<char>>, items: Seq<Lexeme>) -> Seq<TokenView>
    decreases items.len(),
{
    if items.len() == 0 {
        Seq::empty()
    } else {
        let rest = tokens_of(gs, items.drop_last());
        match items.last() {
            Lexeme::Tok(k, a, b) => rest.push(TokenView { kind: k, span: range_span(gs, a, b) }),
            Lexeme::Bad(..) => rest,
        }
    }
}

/// The errors among lexical items, as messages with spans.
pub open spec fn errors_of(gs: Seq<Seq<char>>, items: Seq<Lexeme>) -> Seq<(Seq<char>, Span)>
    decreases items.len(),
{
    if items.len() == 0 {
        Seq::empty()
    } else {
        let rest = errors_of(gs, items.drop_last());
        match items.last() {
            Lexeme::Tok(..) => rest,
            Lexeme::Bad(m, a, b) => rest.push((m, range_span(gs, a, b))),
        }
    }
}

/// What lexing a cluster sequence produces: every token followed by the
/// end-of-file token, or every error when there is at least one.
pub open spec fn lex_result(gs: Seq<Seq<char>>) -> Result<Seq<TokenView>, Seq<(Seq<char>, Span)>> {
    let items = lex_from(gs, 0);
    if errors_of(gs, items).len() == 0 {
        Ok(tokens_of(gs, items).push(TokenView { kind: KindView::Other(TokenKind::Eof), span: eof_span(gs) }))
    } else {
        Err(errors_of(gs, items))
    }
}

/// A diagnostic carries the given message and span.
pub open spec fn diagnostic_is(d: Diagnostic, e: (Seq<char>, Span)) -> bool {
    d.message@ == e.0 && d.span == Some(e.1)
}

/// The tokens of a vector match token views one for one.
pub open spec fn tokens_match(tokens: Seq<Token>, views: Seq<TokenView>) -> bool {
    tokens.len() == views.len() && forall|k: int| 0 <= k < tokens.len() ==> (#[trigger] tokens[k]).view() == views[k]
}

/// The diagnostics of a vector match messages with spans one for one.
pub open spec fn diagnostics_match(ds: Seq<Diagnostic>, es: Seq<(Seq<char>, Span)>) -> bool {
    ds.len() == es.len() && forall|k: int| 0 <= k < ds.len() ==> diagnostic_is(#[trigger] ds[k], es[k])
}


// ---------------------------------------------------------------------------
// Lexer implementation
// ---------------------------------------------------------------------------

/// Clusters of the source together with their spans.
struct Clusters {
    gs: Vec<Grapheme>,
    spans: Vec<Span>,
}

impl Clusters {
    spec fn texts(&self) -> Seq<Seq<char>> {
        grapheme_texts(self.gs@)
    }

    spec fn wf(&self) -> bool {
        &&& self.spans@.len() == self.gs@.len()
        &&& forall|k: int| 0 <= k < self.gs@.len() ==> (#[trigger] self.spans@[k]) == cluster_span(self.texts(), k)
        &&& prefix_bytes(self.texts(), self.gs@.len() as int) < usize::MAX
        &&& forall|k: int| 0 <= k < self.gs@.len() ==> (#[trigger] self.texts()[k]).len() > 0
    }

    fn text(&self, i: usize) -> (g: &Vec<char>)
        requires
            i < self.gs@.len(),
        ensures
            g@ == self.texts()[i as int],
    {
        &self.gs[i].chars
    }
}

proof fn lemma_nonempty_bytes(g: Seq<char>)
    requires
        g.len() > 0,
    ensures
        byte_len(g) >= 1,
{
    assert(encode_utf8(g).len() >= 1);
}

proof fn lemma_line_col_bound(gs: Seq<Seq<char>>, i: int)
    requires
        0 <= i <= gs.len(),
        forall|k: int| 0 <= k < gs.len() ==> (#[trigger] gs[k]).len() > 0,
    ensures
        line_col(gs, i).0 <= prefix_bytes(gs, i) + 1,
        line_col(gs, i).1 <= prefix_bytes(gs, i) + 1,
    decreases i,
{
    if i > 0 {
        lemma_line_col_bound(gs, i - 1);
        lemma_nonempty_bytes(gs[i - 1]);
    }
}

/// Splits the source into clusters and computes the span of each.
fn collect_graphemes(source: &str) -> (c: Clusters)
    requires
        byte_len(source@) < usize::MAX,
    ensures
        c.texts() == extended_graphemes(source@),
        c.wf(),
        extended_graphemes(source@).flatten() == source@,
{
    let gs = split_graphemes(source);
    let total = source.len();
    let n = gs.len();
    let ghost texts = grapheme_texts(gs@);
    proof {
        lemma_prefix_bytes(texts, n as int);
        assert(texts.take(n as int) =~= texts);
        lemma_line_col_bound(texts, n as int);
    }
    let mut spans: Vec<Span> = Vec::new();
    let mut start: usize = 0;
    let mut line: usize = 1;
    let mut column: usize = 1;
    let mut i: usize = 0;
    while i < n
        invariant
            n == gs@.len(),
            texts == grapheme_texts(gs@),
            0 <= i <= n,
            spans@.len() == i,
            forall|k: int| 0 <= k < i ==> (#[trigger] spans@[k]) == cluster_span(texts, k),
            start == prefix_bytes(texts, i as int),
            line == line_col(texts, i as int).0,
            column == line_col(texts, i as int).1,
            prefix_bytes(texts, n as int) < usize::MAX,
            forall|k: int| 0 <= k < n ==> (#[trigger] gs@[k]).bytes == byte_len(gs@[k].chars@),
            forall|k: int| 0 <= k < n ==> (#[trigger] texts[k]).len() > 0,
        decreases n - i,
    {
        proof {
            lemma_prefix_bytes_monotone(texts, i + 1, n as int);
            lemma_line_col_bound(texts, i + 1);
            assert(texts[i as int] == gs@[i as int].chars@);
        }
        let end = start + gs[i].bytes;
        spans.push(Span::new(start, end, line, column));
        let g = &gs[i].chars;
        let newline = (g.len() == 1 && (g[0] == '\n' || g[0] == '\r'))
            || (g.len() == 2 && g[0] == '\r' && g[1] == '\n');
        if newline {
            line = line + 1;
            column = 1;
        } else {
            column = column + 1;
        }
        start = end;
        i = i + 1;
    }
    Clusters { gs, spans }
}

// ---------------------------------------------------------------------------
// Executable classification of clusters
// ---------------------------------------------------------------------------

fn ex_is_char(g: &Vec<char>, c: char) -> (r: bool)
    ensures
        r == is_char(g@, c),
{
    g.len() == 1 && g[0] == c
}

fn ex_is_blank(g: &Vec<char>) -> (r: bool)
    ensures
        r == is_blank(g@),
{
    ex_is_char(g, ' ') || ex_is_char(g, '\t')
}

fn ex_is_newline(g: &Vec<char>) -> (r: bool)
    ensures
        r == is_newline(g@),
{
    ex_is_char(g, '\n') || ex_is_char(g, '\r') || (g.len() == 2 && g[0] == '\r' && g[1] == '\n')
}

fn ex_is_digit(c: char) -> (r: bool)
    ensures
        r == is_digit(c),
{
    '0' <= c && c <= '9'
}

fn ex_is_keycap(g: &Vec<char>) -> (r: bool)
    ensures
        r == is_keycap(g@),
{
    g.len() == 3 && ex_is_digit(g[0]) && g[1] == '\u{FE0F}' && g[2] == '\u{20E3}'
}

fn ex_one_char_kind(c: char) -> (r: Option<TokenKind>)
    ensures
        r == one_char_kind(c),
{
    if c == '📢' { Some(TokenKind::Print) }
    else if c == '🤔' { Some(TokenKind::If) }
    else if c == '😐' { Some(TokenKind::Else) }
    else if c == '🔁' { Some(TokenKind::While) }
    else if c == '🛑' { Some(TokenKind::Break) }
    else if c == '🧭' { Some(TokenKind::In) }
    else if c == '🔢' { Some(TokenKind::Range) }
    else if c == '✅' { Some(TokenKind::Bool(true)) }
    else if c == '❌' { Some(TokenKind::Bool(false)) }
    else if c == '🟰' { Some(TokenKind::Assign) }
    else if c == '➕' { Some(TokenKind::Plus) }
    else if c == '➖' { Some(TokenKind::Minus) }
    else if c == '➗' { Some(TokenKind::Slash) }
    else if c == '🔓' { Some(TokenKind::BlockStart) }
    else if c == '🔒' { Some(TokenKind::BlockEnd) }
    else if c == '🔚' { Some(TokenKind::StatementEnd) }
    else if c == '📚' { Some(TokenKind::ListDelimiter) }
    else if c == '🤝' { Some(TokenKind::And) }
    else if c == '🔀' { Some(TokenKind::Or) }
    else if c == '🚫' { Some(TokenKind::Not) }
    else if c == '📏' { Some(TokenKind::ListLen) }
    else if c == '🔎' { Some(TokenKind::ListIndex) }
    else if c == '📥' { Some(TokenKind::ListAppend) }
    else if c == '🧩' { Some(TokenKind::Function) }
    else if c == '📞' { Some(TokenKind::Call) }
    else if c == '🔤' { Some(TokenKind::TextType) }
    else if c == '🔣' { Some(TokenKind::FloatType) }
    else if c == '🔄' { Some(TokenKind::Convert) }
    else if c == '🔐' { Some(TokenKind::Const) }
    else if c == '🔑' { Some(TokenKind::MapHas) }
    else { None }
}

fn ex_selector_kind(c: char) -> (r: Option<TokenKind>)
    ensures
        r == selector_kind(c),
{
    if c == '⏭' { Some(TokenKind::Continue) }
    else if c == '✖' { Some(TokenKind::Star) }
    else if c == '◀' { Some(TokenKind::Lt) }
    else if c == '▶' { Some(TokenKind::Gt) }
    else if c == '➡' { Some(TokenKind::Arrow) }
    else if c == '↩' { Some(TokenKind::Return) }
    else if c == '⌨' { Some(TokenKind::Input) }
    else if c == '☑' { Some(TokenKind::BoolType) }
    else if c == '🗺' { Some(TokenKind::MapDelimiter) }
    else { None }
}

fn ex_fixed_kind(g: &Vec<char>) -> (r: Option<TokenKind>)
    ensures
        r == fixed_kind(g@),
        r matches Some(k) ==> k.is_plain(),
{
    if g.len() == 1 {
        ex_one_char_kind(g[0])
    } else if g.len() == 2 && g[1] == '\u{FE0F}' {
        ex_selector_kind(g[0])
    } else {
        None
    }
}

fn ex_long_operator(a: &Vec<char>, b: &Vec<char>) -> (r: Option<TokenKind>)
    ensures
        r == long_operator(a@, b@),
        r matches Some(k) ==> k.is_plain(),
{
    if !ex_is_char(b, '🟰') {
        None
    } else if ex_is_char(a, '🟰') {
        Some(TokenKind::Eq)
    } else if ex_is_char(a, '❌') {
        Some(TokenKind::NotEq)
    } else if a.len() == 2 && a[0] == '◀' && a[1] == '\u{FE0F}' {
        Some(TokenKind::LtEq)
    } else if a.len() == 2 && a[0] == '▶' && a[1] == '\u{FE0F}' {
        Some(TokenKind::GtEq)
    } else {
        None
    }
}

fn ex_is_emoji_like(c: char) -> (r: bool)
    ensures
        r == is_emoji_like(c),
{
    let v = c as u32;
    (0x1F000 <= v && v <= 0x1FAFF) || (0x2600 <= v && v <= 0x27BF) || (0x2300 <= v && v <= 0x23FF)
        || (0x2B00 <= v && v <= 0x2BFF)
}

fn ex_is_identifier_emoji(g: &Vec<char>) -> (r: bool)
    ensures
        r == is_identifier_emoji(g@),
{
    if ex_fixed_kind(g).is_some() || ex_is_char(g, '💬') || ex_is_keycap(g) {
        return false;
    }
    let mut k: usize = 0;
    let mut any_emoji = false;
    while k < g.len()
        invariant
            0 <= k <= g@.len(),
            forall|m: int| 0 <= m < k ==> !is_ascii_char(#[trigger] g@[m]),
            any_emoji == exists|m: int| 0 <= m < k && is_emoji_like(#[trigger] g@[m]),
        decreases g@.len() - k,
    {
        if (g[k] as u32) < 128 {
            return false;
        }
        if ex_is_emoji_like(g[k]) {
            any_emoji = true;
        }
        k = k + 1;
    }
    any_emoji
}

fn ex_is_word_start(g: &Vec<char>) -> (r: bool)
    ensures
        r == is_word_start(g@),
{
    g.len() == 1 && (('a' <= g[0] && g[0] <= 'z') || ('A' <= g[0] && g[0] <= 'Z') || g[0] == '_')
}

fn ex_is_word_part(g: &Vec<char>) -> (r: bool)
    ensures
        r == is_word_part(g@),
{
    ex_is_word_start(g) || (g.len() == 1 && ex_is_digit(g[0]))
}

fn ex_all_ascii_digits(g: &Vec<char>) -> (r: bool)
    ensures
        r == all_ascii_digits(g@),
{
    let mut k: usize = 0;
    while k < g.len()
        invariant
            0 <= k <= g@.len(),
            forall|m: int| 0 <= m < k ==> is_digit(#[trigger] g@[m]),
        decreases g@.len() - k,
    {
        if !ex_is_digit(g[k]) {
            return false;
        }
        k = k + 1;
    }
    true
}

/// Appends every character of `chars` to `out`.
fn push_chars(out: &mut String, chars: &Vec<char>)
    ensures
        final(out)@ == old(out)@ + chars@,
{
    let mut k: usize = 0;
    while k < chars.len()
        invariant
            0 <= k <= chars@.len(),
            out@ == old(out)@ + chars@.take(k as int),
        decreases chars@.len() - k,
    {
        push_char(out, chars[k]);
        proof {
            assert(chars@.take(k + 1) =~= chars@.take(k as int).push(chars@[k as int]));
        }
        k = k + 1;
    }
    proof {
        assert(chars@.take(chars@.len() as int) =~= chars@);
    }
}

fn ex_invalid_message(g: &Vec<char>) -> (m: String)
    ensures
        m@ == invalid_message(g@),
{
    if ex_all_ascii_digits(g) {
        owned("ASCII digits are not allowed outside strings. Use emoji digits.")
    } else {
        let mut m = owned("invalid character outside string literal: ");
        if ex_is_char(g, '\n') {
            push_str(&mut m, "\\n");
            proof { reveal_strlit("\\n"); assert("\\n"@ =~= seq!['\\', 'n']); }
        } else if ex_is_char(g, '\r') {
            push_str(&mut m, "\\r");
            proof { reveal_strlit("\\r"); assert("\\r"@ =~= seq!['\\', 'r']); }
        } else if ex_is_char(g, '\t') {
            push_str(&mut m, "\\t");
            proof { reveal_strlit("\\t"); assert("\\t"@ =~= seq!['\\', 't']); }
        } else {
            push_chars(&mut m, g);
        }
        m
    }
}

// ---------------------------------------------------------------------------
// Executable scans over the cluster sequence
// ---------------------------------------------------------------------------

impl Clusters {
    fn scan_comment_end(&self, i: usize) -> (j: usize)
        requires
            i <= self.gs@.len(),
        ensures
            j == comment_end(self.texts(), i as int),
            i <= j <= self.gs@.len(),
    {
        let mut j = i;
        while j < self.gs.len() && !ex_is_newline(self.text(j))
            invariant
                i <= j <= self.gs@.len(),
                comment_end(self.texts(), j as int) == comment_end(self.texts(), i as int),
            decreases self.gs@.len() - j,
        {
            j = j + 1;
        }
        j
    }

    fn scan_string_close(&self, i: usize) -> (r: Option<usize>)
        requires
            i <= self.gs@.len(),
        ensures
            r matches Some(j) ==> string_close(self.texts(), i as int) == Some(j as int),
            r is None ==> string_close(self.texts(), i as int) is None,
    {
        let mut j = i;
        while j < self.gs.len()
            invariant
                i <= j <= self.gs@.len(),
                string_close(self.texts(), j as int) == string_close(self.texts(), i as int),
            decreases self.gs@.len() - j,
        {
            if ex_is_char(self.text(j), '💬') {
                return Some(j);
            }
            j = j + 1;
        }
        None
    }

    fn scan_digit_end(&self, i: usize) -> (j: usize)
        requires
            i <= self.gs@.len(),
        ensures
            j == digit_end(self.texts(), i as int),
            i <= j <= self.gs@.len(),
            forall|k: int| i <= k < j ==> is_keycap(#[trigger] self.texts()[k]),
    {
        let mut j = i;
        while j < self.gs.len() && ex_is_keycap(self.text(j))
            invariant
                i <= j <= self.gs@.len(),
                digit_end(self.texts(), j as int) == digit_end(self.texts(), i as int),
                forall|k: int| i <= k < j ==> is_keycap(#[trigger] self.texts()[k]),
            decreases self.gs@.len() - j,
        {
            j = j + 1;
        }
        j
    }

    fn scan_word_end(&self, i: usize) -> (j: usize)
        requires
            i <= self.gs@.len(),
        ensures
            j == word_end(self.texts(), i as int),
            i <= j <= self.gs@.len(),
    {
        let mut j = i;
        while j < self.gs.len() && ex_is_word_part(self.text(j))
            invariant
                i <= j <= self.gs@.len(),
                word_end(self.texts(), j as int) == word_end(self.texts(), i as int),
            decreases self.gs@.len() - j,
        {
            j = j + 1;
        }
        j
    }

    /// The value of the keycap digits at positions `a..b`.
    fn keycap_number(&self, a: usize, b: usize) -> (v: Int)
        requires
            a <= b <= self.gs@.len(),
            forall|k: int| a <= k < b ==> is_keycap(#[trigger] self.texts()[k]),
        ensures
            v@ == keycap_value(self.texts(), a as int, b as int),
    {
        let mut v = Int::from_usize(0);
        let ten = Int::from_usize(10);
        let mut k = a;
        while k < b
            invariant
                a <= k <= b <= self.gs@.len(),
                forall|m: int| a <= m < b ==> is_keycap(#[trigger] self.texts()[m]),
                v@ == keycap_value(self.texts(), a as int, k as int),
                ten@ == 10,
            decreases b - k,
        {
            let c = self.text(k)[0];
            assert(is_keycap(self.texts()[k as int]));
            let d = Int::from_usize((c as u32 - '0' as u32) as usize);
            v = v.mul(&ten).add(&d);
            k = k + 1;
        }
        v
    }

    /// Appends the ASCII digits of the keycaps at positions `a..b` to `out`.
    fn push_keycap_text(&self, a: usize, b: usize, out: &mut String)
        requires
            a <= b <= self.gs@.len(),
            forall|k: int| a <= k < b ==> is_keycap(#[trigger] self.texts()[k]),
        ensures
            final(out)@ == old(out)@ + keycap_text(self.texts(), a as int, b as int),
    {
        let mut k = a;
        while k < b
            invariant
                a <= k <= b <= self.gs@.len(),
                forall|m: int| a <= m < b ==> is_keycap(#[trigger] self.texts()[m]),
                out@ == old(out)@ + keycap_text(self.texts(), a as int, k as int),
            decreases b - k,
        {
            assert(is_keycap(self.texts()[k as int]));
            push_char(out, self.text(k)[0]);
            k = k + 1;
        }
    }

    /// Appends the characters of the clusters at positions `a..b` to `out`.
    fn push_joined(&self, a: usize, b: usize, out: &mut String)
        requires
            a <= b <= self.gs@.len(),
        ensures
            final(out)@ == old(out)@ + joined(self.texts(), a as int, b as int),
    {
        let mut k = a;
        while k < b
            invariant
                a <= k <= b <= self.gs@.len(),
                out@ == old(out)@ + joined(self.texts(), a as int, k as int),
            decreases b - k,
        {
            push_chars(out, self.text(k));
            k = k + 1;
        }
    }

    /// The span of clusters `a..=b`.
    fn span_of(&self, a: usize, b: usize) -> (s: Span)
        requires
            self.wf(),
            a <= b < self.gs@.len(),
        ensures
            s == range_span(self.texts(), a as int, b as int),
    {
        self.spans[a].merge(self.spans[b])
    }
}

// ---------------------------------------------------------------------------
// The lexer
// ---------------------------------------------------------------------------

/// Whether a lexing outcome is the one `lex_result` describes.
pub open spec fn lexed_as(
    r: Result<Vec<Token>, Vec<Diagnostic>>,
    expected: Result<Seq<TokenView>, Seq<(Seq<char>, Span)>>,
) -> bool {
    match (r, expected) {
        (Ok(tokens), Ok(views)) => tokens_match(tokens@, views),
        (Err(ds), Err(es)) => diagnostics_match(ds@, es),
        _ => false,
    }
}

proof fn lemma_plain_view(k: TokenKind)
    requires
        k.is_plain(),
    ensures
        k.view() == KindView::Other(k),
{
}

/// The token produced for a lexical token item.
pub open spec fn token_for(gs: Seq<Seq<char>>, item: Lexeme, t: Token) -> bool {
    match item {
        Lexeme::Tok(k, a, b) => t.view() == (TokenView { kind: k, span: range_span(gs, a, b) }),
        Lexeme::Bad(..) => false,
    }
}

/// The diagnostic produced for a lexical error item.
pub open spec fn diagnostic_for(gs: Seq<Seq<char>>, item: Lexeme, d: Diagnostic) -> bool {
    match item {
        Lexeme::Tok(..) => false,
        Lexeme::Bad(m, a, b) => diagnostic_is(d, (m, range_span(gs, a, b))),
    }
}

/// What one step of the lexer produced.
enum Step {
    /// Nothing: blanks or a comment were skipped.
    Skip,
    /// A token.
    Emit(Token),
    /// An error.
    Fail(Diagnostic),
}

/// The outcome of one lexer step from position `i` to position `j`.
spec fn step_ok(gs: Seq<Seq<char>>, i: int, j: int, step: Step, item: Lexeme) -> bool {
    &&& i < j <= gs.len()
    &&& match step {
        Step::Skip => lex_from(gs, i) == lex_from(gs, j),
        Step::Emit(t) => lex_from(gs, i) == seq![item] + lex_from(gs, j) && token_for(gs, item, t),
        Step::Fail(d) => lex_from(gs, i) == seq![item] + lex_from(gs, j) && diagnostic_for(gs, item, d),
    }
}

impl Clusters {
    fn lex_text_literal(&self, i: usize) -> (r: (Step, usize, Ghost<Lexeme>))
        requires
            self.wf(),
            i < self.gs@.len(),
            is_char(self.texts()[i as int], '💬'),
            !is_blank(self.texts()[i as int]),
            !is_newline(self.texts()[i as int]),
            !is_char(self.texts()[i as int], '/'),
        ensures
            step_ok(self.texts(), i as int, r.1 as int, r.0, r.2@),
    {
        let n = self.gs.len();
        let ghost texts = self.texts();
        proof { lemma_string_close(texts, i + 1); }
        match self.scan_string_close(i + 1) {
            Some(j) => {
                let mut content = String::new();
                self.push_joined(i + 1, j, &mut content);
                assert(Seq::<char>::empty() + joined(texts, i + 1, j as int) =~= joined(texts, i + 1, j as int));
                let ghost item = Lexeme::Tok(KindView::Text(joined(texts, i + 1, j as int)), i as int, j as int);
                (Step::Emit(Token::new(TokenKind::StringLiteral(content), self.span_of(i, j))), j + 1, Ghost(item))
            },
            None => {
                let ghost item = Lexeme::Bad("unterminated string literal"@, i as int, n - 1);
                assert(lex_from(texts, n as int) =~= Seq::<Lexeme>::empty());
                assert(lex_from(texts, i as int) =~= seq![item] + lex_from(texts, n as int));
                (Step::Fail(Diagnostic::at("unterminated string literal", self.span_of(i, n - 1))), n, Ghost(item))
            },
        }
    }

    fn lex_number(&self, i: usize) -> (r: (Step, usize, Ghost<Lexeme>))
        requires
            self.wf(),
            i < self.gs@.len(),
            is_keycap(self.texts()[i as int]),
            !is_blank(self.texts()[i as int]),
            !is_newline(self.texts()[i as int]),
            !is_char(self.texts()[i as int], '/'),
            !is_char(self.texts()[i as int], '💬'),
            !(i + 1 < self.gs@.len() && long_operator(self.texts()[i as int], self.texts()[i + 1]).is_some()),
        ensures
            step_ok(self.texts(), i as int, r.1 as int, r.0, r.2@),
    {
        let n = self.gs.len();
        let ghost texts = self.texts();
        proof { lemma_digit_end(texts, i as int); }
        let j = self.scan_digit_end(i);
        if j < n && n - j > 1 && ex_is_char(self.text(j), '.') && ex_is_keycap(self.text(j + 1)) {
            proof { lemma_digit_end(texts, j + 1); }
            let k = self.scan_digit_end(j + 1);
            let mut text = String::new();
            self.push_keycap_text(i, j, &mut text);
            push_char(&mut text, '.');
            self.push_keycap_text(j + 1, k, &mut text);
            let ghost value = keycap_text(texts, i as int, j as int) + seq!['.'] + keycap_text(texts, j + 1, k as int);
            assert(text@ =~= value);
            let ghost item = Lexeme::Tok(KindView::Flt(value), i as int, k - 1);
            (Step::Emit(Token::new(TokenKind::Float(text), self.span_of(i, k - 1))), k, Ghost(item))
        } else {
            let value = self.keycap_number(i, j);
            let ghost item = Lexeme::Tok(KindView::Num(keycap_value(texts, i as int, j as int) as int), i as int, j - 1);
            (Step::Emit(Token::new(TokenKind::Number(value), self.span_of(i, j - 1))), j, Ghost(item))
        }
    }

    fn lex_word(&self, i: usize) -> (r: (Step, usize, Ghost<Lexeme>))
        requires
            self.wf(),
            i < self.gs@.len(),
            is_word_start(self.texts()[i as int]),
        ensures
            r.1 > i,
            r.1 <= self.gs@.len(),
            r.0 matches Step::Emit(t) && token_for(self.texts(), r.2@, t),
            r.2@ == Lexeme::Tok(KindView::Ident(joined(self.texts(), i as int, word_end(self.texts(), i + 1))), i as int, word_end(self.texts(), i + 1) - 1),
            r.1 == word_end(self.texts(), i + 1),
    {
        let ghost texts = self.texts();
        let _n = self.gs.len();
        proof { lemma_word_end(texts, i + 1); }
        let j = self.scan_word_end(i + 1);
        let mut name = String::new();
        self.push_joined(i, j, &mut name);
        assert(Seq::<char>::empty() + joined(texts, i as int, j as int) =~= joined(texts, i as int, j as int));
        let ghost item = Lexeme::Tok(KindView::Ident(joined(texts, i as int, j as int)), i as int, j - 1);
        (Step::Emit(Token::new(TokenKind::Identifier(name), self.span_of(i, j - 1))), j, Ghost(item))
    }

    /// One step of the lexer at position `i`.
    fn lex_step(&self, i: usize) -> (r: (Step, usize, Ghost<Lexeme>))
        requires
            self.wf(),
            i < self.gs@.len(),
        ensures
            step_ok(self.texts(), i as int, r.1 as int, r.0, r.2@),
    {
        let n = self.gs.len();
        let g = self.text(i);
        let ghost texts = self.texts();
        if ex_is_blank(g) {
            (Step::Skip, i + 1, Ghost(Lexeme::Bad(Seq::empty(), 0, 0)))
        } else if ex_is_newline(g) {
            let ghost item = Lexeme::Tok(KindView::Other(TokenKind::StatementEnd), i as int, i as int);
            (Step::Emit(Token::new(TokenKind::StatementEnd, self.span_of(i, i))), i + 1, Ghost(item))
        } else if ex_is_char(g, '/') && n - i > 1 && ex_is_char(self.text(i + 1), '/') {
            proof { lemma_comment_end(texts, i + 2); }
            (Step::Skip, self.scan_comment_end(i + 2), Ghost(Lexeme::Bad(Seq::empty(), 0, 0)))
        } else if ex_is_char(g, '💬') {
            self.lex_text_literal(i)
        } else if n - i > 1 && ex_long_operator(g, self.text(i + 1)).is_some() {
            let kind = ex_long_operator(g, self.text(i + 1)).unwrap();
            proof { lemma_plain_view(kind); }
            let ghost item = Lexeme::Tok(KindView::Other(kind), i as int, i + 1);
            (Step::Emit(Token::new(kind, self.span_of(i, i + 1))), i + 2, Ghost(item))
        } else if ex_is_keycap(g) {
            self.lex_number(i)
        } else if ex_fixed_kind(g).is_some() {
            let kind = ex_fixed_kind(g).unwrap();
            proof { lemma_plain_view(kind); }
            let ghost item = Lexeme::Tok(KindView::Other(kind), i as int, i as int);
            (Step::Emit(Token::new(kind, self.span_of(i, i))), i + 1, Ghost(item))
        } else if ex_is_identifier_emoji(g) {
            let mut name = String::new();
            push_chars(&mut name, g);
            assert(Seq::<char>::empty() + g@ =~= g@);
            let ghost item = Lexeme::Tok(KindView::Ident(g@), i as int, i as int);
            (Step::Emit(Token::new(TokenKind::Identifier(name), self.span_of(i, i))), i + 1, Ghost(item))
        } else if ex_is_word_start(g) {
            self.lex_word(i)
        } else {
            let message = ex_invalid_message(g);
            let ghost item = Lexeme::Bad(invalid_message(g@), i as int, i as int);
            (Step::Fail(Diagnostic { message, span: Some(self.span_of(i, i)) }), i + 1, Ghost(item))
        }
    }

    /// The end-of-file token.
    fn eof_token(&self) -> (t: Token)
        requires
            self.wf(),
        ensures
            t.view() == (TokenView { kind: KindView::Other(TokenKind::Eof), span: eof_span(self.texts()) }),
    {
        let n = self.gs.len();
        let ghost texts = self.texts();
        proof {
            lemma_line_col_bound(texts, n as int);
        }
        if n == 0 {
            Token::new(TokenKind::Eof, Span::new(0, 0, 1, 1))
        } else {
            let last = self.spans[n - 1];
            let total = last.end;
            if ex_is_newline(self.text(n - 1)) {
                Token::new(TokenKind::Eof, Span::new(total, total, last.line + 1, 1))
            } else {
                Token::new(TokenKind::Eof, Span::new(total, total, last.line, last.column + 1))
            }
        }
    }
}

/// Tokenize Peps source text.
///
/// On success the tokens end with [`TokenKind::Eof`]; on failure every
/// invalid cluster and an unterminated string are reported, in source order.
/// The result is exactly [`lex_result`] of the source's grapheme clusters,
/// which are non-empty and together spell the source.
pub fn lex(source: &str) -> (r: Result<Vec<Token>, Vec<Diagnostic>>)
    requires
        byte_len(source@) < usize::MAX,
    ensures
        lexed_as(r, lex_result(extended_graphemes(source@))),
        extended_graphemes(source@).flatten() == source@,
        forall|k: int| 0 <= k < extended_graphemes(source@).len() ==> (#[trigger] extended_graphemes(source@)[k]).len() > 0,
{
    let c = collect_graphemes(source);
    let n = c.gs.len();
    let ghost texts = c.texts();
    let mut tokens: Vec<Token> = Vec::new();
    let mut diags: Vec<Diagnostic> = Vec::new();
    let ghost mut done: Seq<Lexeme> = Seq::empty();
    let mut i: usize = 0;
    assert(done + lex_from(texts, 0) =~= lex_from(texts, 0));
    while i < n
        invariant
            c.wf(),
            texts == c.texts(),
            n == c.gs@.len(),
            0 <= i <= n,
            done + lex_from(texts, i as int) == lex_from(texts, 0),
            tokens_match(tokens@, tokens_of(texts, done)),
            diagnostics_match(diags@, errors_of(texts, done)),
        decreases n - i,
    {
        let ghost before = done;
        let (step, j, Ghost(item)) = c.lex_step(i);
        match step {
            Step::Skip => {},
            Step::Emit(t) => {
                tokens.push(t);
                proof {
                    done = done.push(item);
                    assert(done.drop_last() =~= before);
                    assert(done + lex_from(texts, j as int) =~= before + (seq![item] + lex_from(texts, j as int)));
                }
            },
            Step::Fail(d) => {
                diags.push(d);
                proof {
                    done = done.push(item);
                    assert(done.drop_last() =~= before);
                    assert(done + lex_from(texts, j as int) =~= before + (seq![item] + lex_from(texts, j as int)));
                }
            },
        }
        i = j;
    }
    assert(done =~= lex_from(texts, 0));
    if diags.len() == 0 {
        tokens.push(c.eof_token());
        Ok(tokens)
    } else {
        Err(diags)
    }
}


// ---------------------------------------------------------------------------
// Token order
// ---------------------------------------------------------------------------

/// The first cluster a lexical item covers.
spec fn lexeme_first(l: Lexeme) -> int {
    match l {
        Lexeme::Tok(_, a, _) => a,
        Lexeme::Bad(_, a, _) => a,
    }
}

/// The last cluster a lexical item covers.
spec fn lexeme_last(l: Lexeme) -> int {
    match l {
        Lexeme::Tok(_, _, b) => b,
        Lexeme::Bad(_, _, b) => b,
    }
}

/// Whether a lexical item is not an end-of-file token.
spec fn not_eof(l: Lexeme) -> bool {
    !(l matches Lexeme::Tok(KindView::Other(TokenKind::Eof), _, _))
}

/// The items cover clusters within `lo..hi`, one after another, and none is
/// an end-of-file token.
spec fn in_order(items: Seq<Lexeme>, lo: int, hi: int) -> bool {
    &&& forall|k: int| 0 <= k < items.len() ==> lo <= lexeme_first(#[trigger] items[k])
        && lexeme_first(items[k]) <= lexeme_last(items[k]) && lexeme_last(items[k]) < hi && not_eof(items[k])
    &&& forall|k: int| 0 <= k < items.len() - 1 ==> lexeme_last(#[trigger] items[k]) < lexeme_first(items[k + 1])
}

/// An item before items that start later stays in order.
proof fn lemma_in_order_prepend(x: Lexeme, rest: Seq<Lexeme>, lo: int, j: int, hi: int)
    requires
        lo <= lexeme_first(x) <= lexeme_last(x),
        lexeme_last(x) < j,
        lexeme_last(x) < hi,
        not_eof(x),
        in_order(rest, j, hi),
    ensures
        in_order(seq![x] + rest, lo, hi),
{
    let s = seq![x] + rest;
    assert forall|k: int| 0 <= k < s.len() implies lo <= lexeme_first(#[trigger] s[k])
        && lexeme_first(s[k]) <= lexeme_last(s[k]) && lexeme_last(s[k]) < hi && not_eof(s[k]) by {
        if k > 0 {
            assert(s[k] == rest[k - 1]);
        }
    }
    assert forall|k: int| 0 <= k < s.len() - 1 implies lexeme_last(#[trigger] s[k]) < lexeme_first(s[k + 1]) by {
        assert(s[k + 1] == rest[k]);
        if k > 0 {
            assert(s[k] == rest[k - 1]);
        }
    }
}

/// The items from cluster `i` on lie in order within `i..` the end.
proof fn lemma_lex_from_in_order(gs: Seq<Seq<char>>, i: int)
    requires
        0 <= i,
    ensures
        in_order(lex_from(gs, i), i, gs.len() as int),
    decreases gs.len() - i,
{
    let n = gs.len() as int;
    if i >= n {
        return;
    }
    let g = gs[i];
    if is_blank(g) {
        lemma_lex_from_in_order(gs, i + 1);
    } else if is_newline(g) {
        lemma_lex_from_in_order(gs, i + 1);
        lemma_in_order_prepend(Lexeme::Tok(KindView::Other(TokenKind::StatementEnd), i, i), lex_from(gs, i + 1), i, i + 1, n);
    } else if is_char(g, '/') && i + 1 < gs.len() && is_char(gs[i + 1], '/') {
        lemma_comment_end(gs, i + 2);
        lemma_lex_from_in_order(gs, comment_end(gs, i + 2));
    } else if is_char(g, '💬') {
        lemma_string_close(gs, i + 1);
        match string_close(gs, i + 1) {
            Some(j) => {
                lemma_lex_from_in_order(gs, j + 1);
                lemma_in_order_prepend(Lexeme::Tok(KindView::Text(joined(gs, i + 1, j)), i, j), lex_from(gs, j + 1), i, j + 1, n);
            },
            None => {
                let x = Lexeme::Bad("unterminated string literal"@, i, n - 1);
                lemma_in_order_prepend(x, Seq::empty(), i, n, n);
                assert(seq![x] + Seq::<Lexeme>::empty() =~= seq![x]);
            },
        }
    } else if i + 1 < gs.len() && long_operator(g, gs[i + 1]).is_some() {
        lemma_lex_from_in_order(gs, i + 2);
        lemma_in_order_prepend(Lexeme::Tok(KindView::Other(long_operator(g, gs[i + 1]).unwrap()), i, i + 1), lex_from(gs, i + 2), i, i + 2, n);
    } else if is_keycap(g) {
        lemma_digit_end(gs, i);
        let j = digit_end(gs, i);
        if j + 1 < gs.len() && is_char(gs[j], '.') && is_keycap(gs[j + 1]) {
            lemma_digit_end(gs, j + 1);
            let k = digit_end(gs, j + 1);
            lemma_lex_from_in_order(gs, k);
            lemma_in_order_prepend(
                Lexeme::Tok(KindView::Flt(keycap_text(gs, i, j) + seq!['.'] + keycap_text(gs, j + 1, k)), i, k - 1),
                lex_from(gs, k), i, k, n);
        } else {
            lemma_lex_from_in_order(gs, j);
            lemma_in_order_prepend(Lexeme::Tok(KindView::Num(keycap_value(gs, i, j) as int), i, j - 1), lex_from(gs, j), i, j, n);
        }
    } else if fixed_kind(g).is_some() {
        lemma_lex_from_in_order(gs, i + 1);
        lemma_in_order_prepend(Lexeme::Tok(KindView::Other(fixed_kind(g).unwrap()), i, i), lex_from(gs, i + 1), i, i + 1, n);
    } else if is_identifier_emoji(g) {
        lemma_lex_from_in_order(gs, i + 1);
        lemma_in_order_prepend(Lexeme::Tok(KindView::Ident(g), i, i), lex_from(gs, i + 1), i, i + 1, n);
    } else if is_word_start(g) {
        lemma_word_end(gs, i + 1);
        let j = word_end(gs, i + 1);
        lemma_lex_from_in_order(gs, j);
        lemma_in_order_prepend(Lexeme::Tok(KindView::Ident(joined(gs, i, j)), i, j - 1), lex_from(gs, j), i, j, n);
    } else {
        lemma_lex_from_in_order(gs, i + 1);
        lemma_in_order_prepend(Lexeme::Bad(invalid_message(g), i, i), lex_from(gs, i + 1), i, i + 1, n);
    }
}

/// A non-empty cluster takes at least one byte.
proof fn lemma_cluster_bytes(gs: Seq<Seq<char>>, a: int)
    requires
        0 <= a < gs.len(),
        gs[a].len() > 0,
    ensures
        prefix_bytes(gs, a) < prefix_bytes(gs, a + 1),
{
    assert(encode_utf8(gs[a]).len() > 0);
}

/// The tokens among items in order have spans in source order, each ending by
/// the bytes of the clusters up to the last item, and none is end-of-file.
proof fn lemma_tokens_of_in_order(gs: Seq<Seq<char>>, items: Seq<Lexeme>, hi: int)
    requires
        in_order(items, 0, hi),
        hi <= gs.len(),
        forall|k: int| 0 <= k < gs.len() ==> (#[trigger] gs[k]).len() > 0,
        prefix_bytes(gs, gs.len() as int) < usize::MAX,
    ensures
        forall|k: int| 0 <= k < tokens_of(gs, items).len() ==> {
            &&& (#[trigger] tokens_of(gs, items)[k]).kind != KindView::Other(TokenKind::Eof)
            &&& tokens_of(gs, items)[k].span.start < tokens_of(gs, items)[k].span.end
            &&& items.len() > 0 ==> tokens_of(gs, items)[k].span.end <= prefix_bytes(gs, lexeme_last(items.last()) + 1)
        },
        forall|k: int| 0 <= k < tokens_of(gs, items).len() - 1 ==>
            (#[trigger] tokens_of(gs, items)[k]).span.end <= tokens_of(gs, items)[k + 1].span.start,
    decreases items.len(),
{
    if items.len() == 0 {
        return;
    }
    let init = items.drop_last();
    let x = items.last();
    assert(in_order(init, 0, hi)) by {
        assert forall|k: int| 0 <= k < init.len() implies 0 <= lexeme_first(#[trigger] init[k])
            && lexeme_first(init[k]) <= lexeme_last(init[k]) && lexeme_last(init[k]) < hi && not_eof(init[k]) by {
            assert(init[k] == items[k]);
        }
        assert forall|k: int| 0 <= k < init.len() - 1 implies lexeme_last(#[trigger] init[k]) < lexeme_first(init[k + 1]) by {
            assert(init[k] == items[k]);
            assert(init[k + 1] == items[k + 1]);
        }
    }
    lemma_tokens_of_in_order(gs, init, hi);
    let rest = tokens_of(gs, init);
    assert(0 <= lexeme_first(items[items.len() - 1]));
    let a = lexeme_first(x);
    let b = lexeme_last(x);
    lemma_prefix_bytes_monotone(gs, b + 1, gs.len() as int);
    if init.len() > 0 {
        assert(lexeme_last(items[items.len() - 2]) < lexeme_first(items[items.len() - 1]));
        let c = lexeme_last(init.last());
        lemma_prefix_bytes_monotone(gs, c + 1, a);
        lemma_prefix_bytes_monotone(gs, a, b + 1);
    }
    match x {
        Lexeme::Tok(kind, a, b) => {
            let ts = tokens_of(gs, items);
            assert(ts == rest.push(TokenView { kind: kind, span: range_span(gs, a, b) }));
            lemma_cluster_bytes(gs, a);
            lemma_prefix_bytes_monotone(gs, a, b);
            lemma_prefix_bytes_monotone(gs, a + 1, b + 1);
            let sp = range_span(gs, a, b);
            assert(sp.start == prefix_bytes(gs, a));
            assert(sp.end == prefix_bytes(gs, b + 1));
            assert forall|k: int| 0 <= k < ts.len() implies {
                &&& (#[trigger] ts[k]).kind != KindView::Other(TokenKind::Eof)
                &&& ts[k].span.start < ts[k].span.end
                &&& ts[k].span.end <= prefix_bytes(gs, b + 1)
            } by {
                if k < rest.len() {
                    assert(ts[k] == rest[k]);
                }
            }
            assert forall|k: int| 0 <= k < ts.len() - 1 implies (#[trigger] ts[k]).span.end <= ts[k + 1].span.start by {
                assert(ts[k] == rest[k]);
                if k + 1 < rest.len() {
                    assert(ts[k + 1] == rest[k + 1]);
                }
            }
        },
        Lexeme::Bad(..) => {
            assert(tokens_of(gs, items) == rest);
        },
    }
}

/// The tokens of a source are in source order: each covers at least one
/// byte and ends before the next begins, none but the last is the end-of-file
/// token, and the last is that token, empty, at the source's byte length.
pub proof fn law_tokens_in_source_order(source: Seq<char>)
    requires
        byte_len(source) < usize::MAX,
        extended_graphemes(source).flatten() == source,
        forall|k: int| 0 <= k < extended_graphemes(source).len() ==> (#[trigger] extended_graphemes(source)[k]).len() > 0,
    ensures
        lex_result(extended_graphemes(source)) matches Ok(ts) ==> {
            &&& ts.len() > 0
            &&& ts.last().kind == KindView::Other(TokenKind::Eof)
            &&& ts.last().span.start == byte_len(source)
            &&& ts.last().span.end == byte_len(source)
            &&& forall|i: int| 0 <= i < ts.len() - 1 ==> (#[trigger] ts[i]).kind != KindView::Other(TokenKind::Eof)
                && ts[i].span.start < ts[i].span.end && ts[i].span.end <= ts[i + 1].span.start
        },
{
    let gs = extended_graphemes(source);
    let n = gs.len() as int;
    lemma_prefix_bytes(gs, n);
    assert(gs.take(n) =~= gs);
    let items = lex_from(gs, 0);
    lemma_lex_from_in_order(gs, 0);
    lemma_tokens_of_in_order(gs, items, n);
    if lex_result(gs) is Ok {
        let rest = tokens_of(gs, items);
        let ts = lex_result(gs)->Ok_0;
        assert(ts == rest.push(TokenView { kind: KindView::Other(TokenKind::Eof), span: eof_span(gs) }));
        if items.len() > 0 {
            lemma_prefix_bytes_monotone(gs, lexeme_last(items.last()) + 1, n);
        }
        assert forall|i: int| 0 <= i < ts.len() - 1 implies (#[trigger] ts[i]).kind != KindView::Other(TokenKind::Eof)
            && ts[i].span.start < ts[i].span.end && ts[i].span.end <= ts[i + 1].span.start by {
            assert(ts[i] == rest[i]);
            if i + 1 < rest.len() {
                assert(ts[i + 1] == rest[i + 1]);
            }
        }
    }
}


// ---------------------------------------------------------------------------
// Number literals
// ---------------------------------------------------------------------------

/// The first characters of the clusters `a..b`: a keycap's first character is
/// its ASCII digit.
pub open spec fn leading_chars(gs: Seq<Seq<char>>, a: int, b: int) -> Seq<char> {
    Seq::new((b - a) as nat, |m: int| gs[a + m][0])
}

/// Whether the float tokens among `items` spell exactly the clusters they
/// cover: every keycap by its digit, the point by `.`, in order.
pub open spec fn floats_spell_clusters(gs: Seq<Seq<char>>, items: Seq<Lexeme>) -> bool {
    forall|k: int| 0 <= k < items.len() ==> match #[trigger] items[k] {
        Lexeme::Tok(KindView::Flt(text), a, b) => {
            &&& 0 <= a <= b < gs.len()
            &&& text == leading_chars(gs, a, b + 1)
            &&& exists|d: int| a < d < b && is_char(gs[d], '.')
                && forall|m: int| a <= m <= b && m != d ==> is_keycap(#[trigger] gs[m])
        },
        _ => true,
    }
}

/// The digits of the keycaps `a..b` are their leading characters.
proof fn lemma_keycap_text(gs: Seq<Seq<char>>, a: int, b: int)
    requires
        a <= b,
    ensures
        keycap_text(gs, a, b) == leading_chars(gs, a, b),
    decreases b - a,
{
    if a < b {
        lemma_keycap_text(gs, a, b - 1);
        assert(keycap_text(gs, a, b) =~= leading_chars(gs, a, b));
    } else {
        assert(keycap_text(gs, a, b) =~= leading_chars(gs, a, b));
    }
}

/// Keycap runs: every cluster from `i` up to where the run ends is a keycap.
proof fn lemma_digit_run(gs: Seq<Seq<char>>, i: int)
    requires
        0 <= i,
    ensures
        forall|m: int| i <= m < digit_end(gs, i) ==> is_keycap(#[trigger] gs[m]),
    decreases gs.len() - i,
{
    if !(i >= gs.len() || !is_keycap(gs[i])) {
        lemma_digit_run(gs, i + 1);
    }
}

/// An item before items whose floats spell their clusters keeps that property.
proof fn lemma_floats_prepend(gs: Seq<Seq<char>>, x: Lexeme, rest: Seq<Lexeme>)
    requires
        floats_spell_clusters(gs, seq![x]),
        floats_spell_clusters(gs, rest),
    ensures
        floats_spell_clusters(gs, seq![x] + rest),
{
    let s = seq![x] + rest;
    assert forall|k: int| 0 <= k < s.len() implies match #[trigger] s[k] {
        Lexeme::Tok(KindView::Flt(text), a, b) => {
            &&& 0 <= a <= b < gs.len()
            &&& text == leading_chars(gs, a, b + 1)
            &&& exists|d: int| a < d < b && is_char(gs[d], '.')
                && forall|m: int| a <= m <= b && m != d ==> is_keycap(#[trigger] gs[m])
        },
        _ => true,
    } by {
        if k == 0 {
            assert(s[0] == seq![x][0]);
        } else {
            assert(s[k] == rest[k - 1]);
        }
    }
}

/// A float literal is lexed with all of its digits: from cluster `i` on,
/// every float token's text is the digits of the keycaps it covers, before
/// and after its one `.`, in order, e.g. `1️⃣2️⃣.5️⃣` gives `12.5`.
pub proof fn law_float_literal_keeps_every_digit(gs: Seq<Seq<char>>, i: int)
    requires
        0 <= i,
    ensures
        floats_spell_clusters(gs, lex_from(gs, i)),
    decreases gs.len() - i,
{
    if i >= gs.len() {
        return;
    }
    let g = gs[i];
    if is_blank(g) {
        law_float_literal_keeps_every_digit(gs, i + 1);
    } else if is_newline(g) {
        law_float_literal_keeps_every_digit(gs, i + 1);
        lemma_floats_prepend(gs, Lexeme::Tok(KindView::Other(TokenKind::StatementEnd), i, i), lex_from(gs, i + 1));
    } else if is_char(g, '/') && i + 1 < gs.len() && is_char(gs[i + 1], '/') {
        lemma_comment_end(gs, i + 2);
        law_float_literal_keeps_every_digit(gs, comment_end(gs, i + 2));
    } else if is_char(g, '💬') {
        lemma_string_close(gs, i + 1);
        match string_close(gs, i + 1) {
            Some(j) => {
                law_float_literal_keeps_every_digit(gs, j + 1);
                lemma_floats_prepend(gs, Lexeme::Tok(KindView::Text(joined(gs, i + 1, j)), i, j), lex_from(gs, j + 1));
            },
            None => {},
        }
    } else if i + 1 < gs.len() && long_operator(g, gs[i + 1]).is_some() {
        law_float_literal_keeps_every_digit(gs, i + 2);
        lemma_floats_prepend(gs, Lexeme::Tok(KindView::Other(long_operator(g, gs[i + 1]).unwrap()), i, i + 1), lex_from(gs, i + 2));
    } else if is_keycap(g) {
        lemma_digit_end(gs, i);
        let j = digit_end(gs, i);
        if j + 1 < gs.len() && is_char(gs[j], '.') && is_keycap(gs[j + 1]) {
            lemma_digit_end(gs, j + 1);
            let k = digit_end(gs, j + 1);
            law_float_literal_keeps_every_digit(gs, k);
            lemma_digit_run(gs, i);
            lemma_digit_run(gs, j + 1);
            lemma_keycap_text(gs, i, j);
            lemma_keycap_text(gs, j + 1, k);
            let text = keycap_text(gs, i, j) + seq!['.'] + keycap_text(gs, j + 1, k);
            assert(text =~= leading_chars(gs, i, k));
            let x = Lexeme::Tok(KindView::Flt(text), i, k - 1);
            assert(floats_spell_clusters(gs, seq![x])) by {
                assert(seq![x][0] == x);
                assert(forall|m: int| i <= m <= k - 1 && m != j ==> is_keycap(#[trigger] gs[m]));
            }
            lemma_floats_prepend(gs, x, lex_from(gs, k));
        } else {
            law_float_literal_keeps_every_digit(gs, j);
            lemma_floats_prepend(gs, Lexeme::Tok(KindView::Num(keycap_value(gs, i, j) as int), i, j - 1), lex_from(gs, j));
        }
    } else if fixed_kind(g).is_some() {
        law_float_literal_keeps_every_digit(gs, i + 1);
        lemma_floats_prepend(gs, Lexeme::Tok(KindView::Other(fixed_kind(g).unwrap()), i, i), lex_from(gs, i + 1));
    } else if is_identifier_emoji(g) {
        law_float_literal_keeps_every_digit(gs, i + 1);
        lemma_floats_prepend(gs, Lexeme::Tok(KindView::Ident(g), i, i), lex_from(gs, i + 1));
    } else if is_word_start(g) {
        lemma_word_end(gs, i + 1);
        let j = word_end(gs, i + 1);
        law_float_literal_keeps_every_digit(gs, j);
        lemma_floats_prepend(gs, Lexeme::Tok(KindView::Ident(joined(gs, i, j)), i, j - 1), lex_from(gs, j));
    } else {
        law_float_literal_keeps_every_digit(gs, i + 1);
        lemma_floats_prepend(gs, Lexeme::Bad(invalid_message(g), i, i), lex_from(gs, i + 1));
    }
}

} // verus!
