//! The word tokenizer and quoting preprocessor.
//!
//! The caller hands the interpreter a script as a sequence of words split on
//! spaces.  This module splits words at embedded newlines, joins quoted
//! spans into single words, and strips unescaped quote characters, so that
//! the engine sees one word per dispatchable token.

use vstd::prelude::*;

use crate::errors::SyntaxError;
use crate::strutil::str_eq;

verus! {

/// A word ends the current buffered command when its last character is an
/// unescaped separator.  This names the two separator roles a word can
/// carry.
#[derive(Clone, Copy, PartialEq, Eq, Structural, Debug)]
pub enum Separator {
    /// No trailing separator: the word continues the current command.
    Bare,
    /// Trailing `,` or raw newline: the current command is complete.
    NextCommand,
    /// Trailing `;`: the current command is complete and, when the command
    /// is empty, the innermost open block closes.
    EndOfBlock,
}

/// The separator role a word's last character carries.  `;` and `,` can
/// be escaped with a backslash; a newline cannot.
pub open spec fn separator_of(w: Seq<char>) -> Separator {
    if w.len() == 0 {
        Separator::Bare
    } else {
        let c = w.last();
        if c == '\n' {
            Separator::NextCommand
        } else if c == ';' {
            if w.len() >= 2 && w[w.len() - 2] == '\\' {
                Separator::Bare
            } else {
                Separator::EndOfBlock
            }
        } else if c == ',' {
            if w.len() >= 2 && w[w.len() - 2] == '\\' {
                Separator::Bare
            } else {
                Separator::NextCommand
            }
        } else {
            Separator::Bare
        }
    }
}

/// The word without its separator: a trailing unescaped separator is
/// dropped, an escaped one loses its backslash and stays a literal
/// character.
pub open spec fn word_core(w: Seq<char>) -> Seq<char> {
    if w.len() == 0 {
        w
    } else {
        let c = w.last();
        if c == '\n' {
            w.drop_last()
        } else if c == ';' || c == ',' {
            if w.len() >= 2 && w[w.len() - 2] == '\\' {
                w.take(w.len() - 2) + seq![c]
            } else {
                w.drop_last()
            }
        } else {
            w
        }
    }
}

/// Split one word into its command text and its separator role.
pub fn word_parts(w: &String) -> (r: (String, Separator))
    ensures
        r.0@ == word_core(w@),
        r.1 == separator_of(w@),
{
    let n = w.as_str().unicode_len();
    if n == 0 {
        return (String::new(), Separator::Bare);
    }
    let c = w.as_str().get_char(n - 1);
    if c == '\n' {
        let core = String::from_str(w.as_str().substring_char(0, n - 1));
        proof {
            assert(core@ =~= w@.drop_last());
        }
        (core, Separator::NextCommand)
    } else if c == ';' || c == ',' {
        if n >= 2 && w.as_str().get_char(n - 2) == '\\' {
            let core = String::from_str(w.as_str().substring_char(0, n - 2)).concat(
                w.as_str().substring_char(n - 1, n),
            );
            proof {
                assert(core@ =~= w@.take(w@.len() - 2) + seq![w@.last()]);
            }
            (core, Separator::Bare)
        } else {
            let core = String::from_str(w.as_str().substring_char(0, n - 1));
            proof {
                assert(core@ =~= w@.drop_last());
            }
            let sep = if c == ';' {
                Separator::EndOfBlock
            } else {
                Separator::NextCommand
            };
            (core, sep)
        }
    } else {
        (w.clone(), Separator::Bare)
    }
}

/// A quote character: either of the two span delimiters.
pub open spec fn is_quote(c: char) -> bool {
    c == '\'' || c == '"'
}

/// What is left of a word once unescaped quote characters are removed.
/// A quote preceded by a backslash stays, and loses the backslash.
pub open spec fn strip_quotes(s: Seq<char>) -> Seq<char>
    decreases s.len(),
{
    if s.len() == 0 {
        Seq::empty()
    } else if s.len() >= 2 && s[0] == '\\' && is_quote(s[1]) {
        seq![s[1]] + strip_quotes(s.skip(2))
    } else if is_quote(s[0]) {
        strip_quotes(s.skip(1))
    } else {
        seq![s[0]] + strip_quotes(s.skip(1))
    }
}

/// Remove all unescaped quotation marks from one word, keeping escaped
/// ones as literal characters without their backslash.
pub fn remove_quotationmarks(input: &str) -> (r: String)
    ensures
        r@ == strip_quotes(input@),
{
    let n = input.unicode_len();
    let mut out = String::new();
    let mut i: usize = 0;
    proof {
        assert(input@.skip(0) =~= input@);
        assert(out@ + strip_quotes(input@) =~= strip_quotes(input@));
    }
    while i < n
        invariant
            0 <= i <= n,
            n == input@.len(),
            strip_quotes(input@) == out@ + strip_quotes(input@.skip(i as int)),
        decreases n - i,
    {
        let c = input.get_char(i);
        proof {
            assert(input@.skip(i as int)[0] == input@[i as int]);
        }
        if c == '\\' && i + 1 < n
            && (input.get_char(i + 1) == '\'' || input.get_char(i + 1) == '"') {
            let piece = input.substring_char(i + 1, i + 2);
            proof {
                assert(input@.skip(i as int)[1] == input@[i + 1]);
                assert(input@.skip(i as int).skip(2) =~= input@.skip(i + 2));
                assert(piece@ =~= seq![input@[i + 1]]);
                assert((out@ + piece@) + strip_quotes(input@.skip(i + 2)) =~= out@ + (piece@
                    + strip_quotes(input@.skip(i + 2))));
            }
            out.append(piece);
            i = i + 2;
        } else if c == '\'' || c == '"' {
            proof {
                assert(input@.skip(i as int).skip(1) =~= input@.skip(i + 1));
            }
            i = i + 1;
        } else {
            let piece = input.substring_char(i, i + 1);
            proof {
                assert(input@.skip(i as int).skip(1) =~= input@.skip(i + 1));
                assert(piece@ =~= seq![input@[i as int]]);
                assert(!(input@.skip(i as int).len() >= 2 && input@.skip(i as int)[0] == '\\'
                    && is_quote(input@.skip(i as int)[1])) ==> strip_quotes(
                    input@.skip(i as int),
                ) == if is_quote(input@[i as int]) {
                    strip_quotes(input@.skip(i + 1))
                } else {
                    seq![input@[i as int]] + strip_quotes(input@.skip(i + 1))
                });
                assert((out@ + piece@) + strip_quotes(input@.skip(i + 1)) =~= out@ + (piece@
                    + strip_quotes(input@.skip(i + 1))));
            }
            out.append(piece);
            i = i + 1;
        }
    }
    proof {
        assert(input@.skip(n as int) =~= Seq::<char>::empty());
        assert(out@ + Seq::<char>::empty() =~= out@);
    }
    out
}

/// A word whose unescaped first character is a quote opens a quoted span.
pub open spec fn opens_span(w: Seq<char>) -> bool {
    w.len() > 0 && is_quote(w[0])
}

/// A word whose unescaped last character is the span's quote closes it.
pub open spec fn closes_span(w: Seq<char>, q: char) -> bool {
    w.len() > 0 && w.last() == q && (w.len() < 2 || w[w.len() - 2] != '\\')
}

/// A word that opens a span and closes it itself, such as `"ab"`.
pub open spec fn self_closing(w: Seq<char>) -> bool {
    w.len() >= 2 && opens_span(w) && closes_span(w, w[0])
}

/// Put one finished word in front of the remaining grouping result.
pub open spec fn prepend_word(x: Seq<char>, rest: Option<Seq<Seq<char>>>) -> Option<
    Seq<Seq<char>>,
> {
    match rest {
        Option::Some(r) => Option::Some(seq![x] + r),
        Option::None => Option::None,
    }
}

/// Grouping of the words from position `i` on, with `pending` holding the
/// quote character and the words joined so far of a span that is still
/// open.  `None` means an unterminated span.
pub open spec fn group_from(
    ws: Seq<Seq<char>>,
    i: int,
    pending: Option<(char, Seq<char>)>,
) -> Option<Seq<Seq<char>>>
    decreases ws.len() - i,
{
    if i < 0 || i >= ws.len() {
        match pending {
            Option::Some(_) => Option::None,
            Option::None => Option::Some(seq![]),
        }
    } else {
        let w = ws[i];
        match pending {
            Option::None => {
                if opens_span(w) && !self_closing(w) {
                    group_from(ws, i + 1, Option::Some((w[0], w)))
                } else {
                    prepend_word(strip_quotes(w), group_from(ws, i + 1, Option::None))
                }
            },
            Option::Some(p) => {
                let joined = p.1 + seq![' '] + w;
                if closes_span(w, p.0) {
                    prepend_word(strip_quotes(joined), group_from(ws, i + 1, Option::None))
                } else {
                    group_from(ws, i + 1, Option::Some((p.0, joined)))
                }
            },
        }
    }
}

/// The grouped form of a whole word sequence, or `None` when a quoted
/// span is never closed.
pub open spec fn spec_group(ws: Seq<Seq<char>>) -> Option<Seq<Seq<char>>> {
    group_from(ws, 0, Option::None)
}

/// The loop relation of `group_quotationmarks`: what was already emitted,
/// together with the grouping of the rest, forms the whole result.
pub open spec fn group_step_inv(
    ws: Seq<Seq<char>>,
    i: int,
    pending: Option<(char, Seq<char>)>,
    out: Seq<Seq<char>>,
) -> bool {
    match (spec_group(ws), group_from(ws, i, pending)) {
        (Option::Some(full), Option::Some(rest)) => full == out + rest,
        (Option::None, Option::None) => true,
        _ => false,
    }
}

/// Does this word close a span opened with quote character `q`?
fn word_closes(w: &String, q: char) -> (r: bool)
    ensures
        r == closes_span(w@, q),
{
    let n = w.as_str().unicode_len();
    if n == 0 {
        return false;
    }
    let last = w.as_str().get_char(n - 1);
    if last != q {
        return false;
    }
    if n < 2 {
        true
    } else {
        w.as_str().get_char(n - 2) != '\\'
    }
}

/// Join quoted spans into single words and strip unescaped quotes.
///
/// A word beginning with a quote opens a span; following words are
/// space-joined to it until one ends with the same quote character; the
/// joined word is emitted with its quote characters removed.  A span that
/// never closes is a syntax error and nothing is handed on.
pub fn group_quotationmarks(script: Vec<String>) -> (r: Result<Vec<String>, SyntaxError>)
    ensures
        match r {
            Result::Ok(v) => spec_group(script.deep_view()) == Option::Some(v.deep_view()),
            Result::Err(e) => spec_group(script.deep_view()) is None && e is UnclosedQuotes,
        },
{
    let ghost dv = script.deep_view();
    let n = script.len();
    let mut out: Vec<String> = Vec::new();
    let mut in_span = false;
    let mut q: char = ' ';
    let mut acc = String::new();
    let mut i: usize = 0;
    proof {
        assert(out.deep_view() =~= Seq::<Seq<char>>::empty());
        if spec_group(dv) is Some {
            assert(out.deep_view() + spec_group(dv)->Some_0 =~= spec_group(dv)->Some_0);
        }
    }
    while i < n
        invariant
            0 <= i <= n,
            n == dv.len(),
            dv == script.deep_view(),
            n == script.len(),
            in_span ==> group_step_inv(dv, i as int, Option::Some((q, acc@)), out.deep_view()),
            !in_span ==> group_step_inv(
                dv,
                i as int,
                Option::None::<(char, Seq<char>)>,
                out.deep_view(),
            ),
        decreases n - i,
    {
        let w: &String = &script[i];
        proof {
            assert(dv[i as int] == w@);
        }
        if !in_span {
            let wn = w.as_str().unicode_len();
            let mut opens = false;
            let mut c0: char = ' ';
            if wn > 0 {
                c0 = w.as_str().get_char(0);
                opens = c0 == '\'' || c0 == '"';
            }
            let selfc = opens && wn >= 2 && word_closes(w, c0);
            proof {
                assert(opens == opens_span(w@));
                assert(selfc == self_closing(w@));
            }
            if opens && !selfc {
                q = c0;
                acc = w.clone();
                in_span = true;
            } else {
                let ghost out0 = out.deep_view();
                let stripped = remove_quotationmarks(w.as_str());
                out.push(stripped);
                proof {
                    assert(out.deep_view() =~= out0 + seq![strip_quotes(w@)]);
                    if group_from(dv, i + 1, Option::None::<(char, Seq<char>)>) is Some {
                        assert((out0 + seq![strip_quotes(w@)]) + group_from(
                            dv,
                            i + 1,
                            Option::None::<(char, Seq<char>)>,
                        )->Some_0 =~= out0 + (seq![strip_quotes(w@)] + group_from(
                            dv,
                            i + 1,
                            Option::None::<(char, Seq<char>)>,
                        )->Some_0));
                    }
                }
            }
        } else {
            let joined = acc.clone().concat(" ").concat(w.as_str());
            proof {
                reveal_strlit(" ");
                assert(" "@ =~= seq![' ']);
                assert(joined@ == (acc@ + seq![' ']) + w@);
            }
            if word_closes(w, q) {
                let ghost out0 = out.deep_view();
                let stripped = remove_quotationmarks(joined.as_str());
                out.push(stripped);
                in_span = false;
                acc = String::new();
                proof {
                    assert(out.deep_view() =~= out0 + seq![strip_quotes(joined@)]);
                    if group_from(dv, i + 1, Option::None::<(char, Seq<char>)>) is Some {
                        assert((out0 + seq![strip_quotes(joined@)]) + group_from(
                            dv,
                            i + 1,
                            Option::None::<(char, Seq<char>)>,
                        )->Some_0 =~= out0 + (seq![strip_quotes(joined@)] + group_from(
                            dv,
                            i + 1,
                            Option::None::<(char, Seq<char>)>,
                        )->Some_0));
                    }
                }
            } else {
                acc = joined;
            }
        }
        i = i + 1;
    }
    if in_span {
        Err(SyntaxError::UnclosedQuotes)
    } else {
        proof {
            if spec_group(dv) is Some {
                assert(out.deep_view() + Seq::<Seq<char>>::empty() =~= out.deep_view());
            }
        }
        Ok(out)
    }
}

/// A word holding no quote character at all.
pub open spec fn no_quote(w: Seq<char>) -> bool {
    forall|j: int| 0 <= j < w.len() ==> !is_quote(w[j])
}

/// Stripping quotes from a quote-free word changes nothing.
pub proof fn lemma_strip_quotes_id(w: Seq<char>)
    requires
        no_quote(w),
    ensures
        strip_quotes(w) == w,
    decreases w.len(),
{
    if w.len() == 0 {
        assert(strip_quotes(w) =~= w);
    } else {
        assert(forall|j: int| 0 <= j < w.skip(1).len() ==> w.skip(1)[j] == w[j + 1]);
        lemma_strip_quotes_id(w.skip(1));
        assert(strip_quotes(w) =~= seq![w[0]] + w.skip(1));
        assert(seq![w[0]] + w.skip(1) =~= w);
    }
}

/// Grouping a run of quote-free words leaves them as they are.
proof fn lemma_group_plain_suffix(ws: Seq<Seq<char>>, k: int)
    requires
        0 <= k <= ws.len(),
        forall|j: int| k <= j < ws.len() ==> no_quote(ws[j]),
    ensures
        group_from(ws, k, Option::None) == Option::Some(ws.skip(k)),
    decreases ws.len() - k,
{
    if k == ws.len() {
        assert(ws.skip(k) =~= Seq::<Seq<char>>::empty());
    } else {
        lemma_group_plain_suffix(ws, k + 1);
        lemma_strip_quotes_id(ws[k]);
        assert(!opens_span(ws[k]));
        assert(seq![ws[k]] + ws.skip(k + 1) =~= ws.skip(k));
    }
}

/// Grouping from `k` up to the single span at `i`, all other words plain.
proof fn lemma_group_one_span_from(ws: Seq<Seq<char>>, k: int, i: int)
    requires
        0 <= k <= i,
        i + 1 < ws.len(),
        opens_span(ws[i]),
        !self_closing(ws[i]),
        closes_span(ws[i + 1], ws[i][0]),
        forall|j: int| 0 <= j < ws.len() && j != i && j != i + 1 ==> no_quote(ws[j]),
    ensures
        group_from(ws, k, Option::None) == Option::Some(
            ws.subrange(k, i) + seq![strip_quotes(ws[i] + seq![' '] + ws[i + 1])] + ws.skip(
                i + 2,
            ),
        ),
    decreases i - k,
{
    let joined = ws[i] + seq![' '] + ws[i + 1];
    if k == i {
        assert(group_from(ws, i, Option::None) == group_from(
            ws,
            i + 1,
            Option::Some((ws[i][0], ws[i])),
        ));
        lemma_group_plain_suffix(ws, i + 2);
        assert(group_from(ws, i + 1, Option::Some((ws[i][0], ws[i]))) == prepend_word(
            strip_quotes(joined),
            group_from(ws, i + 2, Option::None),
        ));
        assert(ws.subrange(i, i) =~= Seq::<Seq<char>>::empty());
        assert(ws.subrange(i, i) + seq![strip_quotes(joined)] + ws.skip(i + 2) =~= seq![
            strip_quotes(joined),
        ] + ws.skip(i + 2));
    } else {
        lemma_group_one_span_from(ws, k + 1, i);
        lemma_strip_quotes_id(ws[k]);
        assert(!opens_span(ws[k]));
        assert(seq![ws[k]] + (ws.subrange(k + 1, i) + seq![strip_quotes(joined)] + ws.skip(
            i + 2,
        )) =~= ws.subrange(k, i) + seq![strip_quotes(joined)] + ws.skip(i + 2));
    }
}

/// Law: when exactly one adjacent pair of words forms a balanced quoted
/// span and no other word holds a quote character, tokenizing succeeds,
/// yields one fewer top-level word, and replaces the pair by its
/// space-joined content with the quote characters removed.
pub proof fn lemma_quoting_round_trip(ws: Seq<Seq<char>>, i: int)
    requires
        0 <= i,
        i + 1 < ws.len(),
        opens_span(ws[i]),
        !self_closing(ws[i]),
        closes_span(ws[i + 1], ws[i][0]),
        forall|j: int| 0 <= j < ws.len() && j != i && j != i + 1 ==> no_quote(ws[j]),
    ensures
        spec_group(ws) is Some,
        spec_group(ws)->Some_0.len() == ws.len() - 1,
        spec_group(ws)->Some_0 == ws.take(i) + seq![
            strip_quotes(ws[i] + seq![' '] + ws[i + 1]),
        ] + ws.skip(i + 2),
{
    lemma_group_one_span_from(ws, 0, i);
    assert(ws.subrange(0, i) =~= ws.take(i));
}

/// Is some open block in this scan stack a loop?
pub open spec fn scan_has_lock(stack: Seq<bool>) -> bool {
    exists|j: int| 0 <= j < stack.len() && #[trigger] stack[j] == true
}

/// The next value of the 1-based line counter after a newline-terminated
/// word (saturating at the largest machine integer).
pub open spec fn bump_line(line: usize) -> usize {
    if line < usize::MAX {
        (line + 1) as usize
    } else {
        line
    }
}

/// The syntax scan over the words from `i` on: `stack` holds one entry
/// per open block (`true` for `lock`, `false` for `if`), `at_start` says
/// whether the next non-empty word leads a command, `line` is the 1-based
/// line the current word stands on, and `errs` collects the problems
/// found so far, each with its line.  Every block still open at the end
/// is reported unclosed, with its kind.
pub open spec fn syntax_scan(
    ws: Seq<Seq<char>>,
    i: int,
    stack: Seq<bool>,
    at_start: bool,
    line: usize,
    errs: Seq<(crate::errors::SyntaxError, usize)>,
) -> Seq<(crate::errors::SyntaxError, usize)>
    decreases ws.len() - i,
{
    if i < 0 || i >= ws.len() {
        errs + Seq::new(
            stack.len(),
            |j: int|
                (
                    crate::errors::SyntaxError::UnclosedBlock(
                        if stack[j] {
                            crate::errors::BlockKind::LockBlock
                        } else {
                            crate::errors::BlockKind::IfBlock
                        },
                    ),
                    line,
                ),
        )
    } else {
        let w = ws[i];
        let core = word_core(w);
        let sep = separator_of(w);
        let leader = at_start && core.len() > 0;
        let next_start = if sep != Separator::Bare {
            true
        } else if core.len() == 0 {
            at_start
        } else {
            at_start && core == "lock"@
        };
        let next_line = if w.len() > 0 && w.last() == '\n' {
            bump_line(line)
        } else {
            line
        };
        if core.len() == 0 && sep == Separator::EndOfBlock {
            if stack.len() == 0 {
                syntax_scan(
                    ws,
                    i + 1,
                    stack,
                    next_start,
                    next_line,
                    errs.push((crate::errors::SyntaxError::UnmatchedBlockClose, line)),
                )
            } else {
                syntax_scan(ws, i + 1, stack.drop_last(), next_start, next_line, errs)
            }
        } else if leader && core == "lock"@ {
            syntax_scan(ws, i + 1, stack.push(true), next_start, next_line, errs)
        } else if leader && core == "if"@ {
            syntax_scan(ws, i + 1, stack.push(false), next_start, next_line, errs)
        } else if leader && core == "free"@ && !scan_has_lock(stack) {
            syntax_scan(
                ws,
                i + 1,
                stack,
                next_start,
                next_line,
                errs.push((crate::errors::SyntaxError::MisplacedFree, line)),
            )
        } else if leader && core == "continue"@ && !scan_has_lock(stack) {
            syntax_scan(
                ws,
                i + 1,
                stack,
                next_start,
                next_line,
                errs.push((crate::errors::SyntaxError::MisplacedContinue, line)),
            )
        } else {
            syntax_scan(ws, i + 1, stack, next_start, next_line, errs)
        }
    }
}

/// The syntax problems of a whole tokenized script, each with the 1-based
/// line it stands on.
pub open spec fn spec_syntax_test(ws: Seq<Seq<char>>) -> Seq<
    (crate::errors::SyntaxError, usize),
> {
    syntax_scan(ws, 0, Seq::empty(), true, 1, Seq::empty())
}

/// Scan a tokenized script for structural errors before it runs: blocks
/// that never close (named by kind), closing markers with no open block,
/// and `free` or `continue` outside of any `lock` — each with the 1-based
/// line it stands on.  An empty result means the script may run.
pub fn syntax_test(script: &Vec<String>) -> (r: Vec<(crate::errors::SyntaxError, usize)>)
    ensures
        r@ == spec_syntax_test(script.deep_view()),
{
    let ghost ws = script.deep_view();
    let mut errs: Vec<(crate::errors::SyntaxError, usize)> = Vec::new();
    let mut stack: Vec<bool> = Vec::new();
    let mut at_start = true;
    let mut line: usize = 1;
    let mut i: usize = 0;
    proof {
        assert(errs@ =~= Seq::<(crate::errors::SyntaxError, usize)>::empty());
        assert(stack@ =~= Seq::<bool>::empty());
    }
    while i < script.len()
        invariant
            0 <= i <= script.len(),
            ws == script.deep_view(),
            spec_syntax_test(ws) == syntax_scan(ws, i as int, stack@, at_start, line, errs@),
        decreases script.len() - i,
    {
        proof {
            assert(ws[i as int] == script@[i as int]@);
        }
        let w: &String = &script[i];
        let wn = w.as_str().unicode_len();
        let newline = wn > 0 && w.as_str().get_char(wn - 1) == '\n';
        let (core, sep) = word_parts(w);
        let empty_core = core.as_str().unicode_len() == 0;
        let leader = at_start && !empty_core;
        let next_start = if !matches!(sep, Separator::Bare) {
            true
        } else if empty_core {
            at_start
        } else {
            at_start && str_eq(core.as_str(), "lock")
        };
        if empty_core && matches!(sep, Separator::EndOfBlock) {
            if stack.len() == 0 {
                errs.push((crate::errors::SyntaxError::UnmatchedBlockClose, line));
            } else {
                let ghost st0 = stack@;
                stack.pop();
                proof {
                    assert(stack@ =~= st0.drop_last());
                }
            }
        } else if leader && str_eq(core.as_str(), "lock") {
            stack.push(true);
        } else if leader && str_eq(core.as_str(), "if") {
            stack.push(false);
        } else if leader && str_eq(core.as_str(), "free") {
            let mut found = false;
            let mut j: usize = 0;
            while j < stack.len()
                invariant
                    0 <= j <= stack@.len(),
                    found ==> scan_has_lock(stack@),
                    !found ==> forall|k: int| 0 <= k < j ==> #[trigger] stack@[k] != true,
                decreases stack@.len() - j,
            {
                if stack[j] {
                    found = true;
                }
                j = j + 1;
            }
            proof {
                if !found {
                    assert(forall|k: int| 0 <= k < stack@.len() ==> #[trigger] stack@[k]
                        != true);
                }
            }
            if !found {
                errs.push((crate::errors::SyntaxError::MisplacedFree, line));
            }
        } else if leader && str_eq(core.as_str(), "continue") {
            let mut found = false;
            let mut j: usize = 0;
            while j < stack.len()
                invariant
                    0 <= j <= stack@.len(),
                    found ==> scan_has_lock(stack@),
                    !found ==> forall|k: int| 0 <= k < j ==> #[trigger] stack@[k] != true,
                decreases stack@.len() - j,
            {
                if stack[j] {
                    found = true;
                }
                j = j + 1;
            }
            proof {
                if !found {
                    assert(forall|k: int| 0 <= k < stack@.len() ==> #[trigger] stack@[k]
                        != true);
                }
            }
            if !found {
                errs.push((crate::errors::SyntaxError::MisplacedContinue, line));
            }
        }
        if newline && line < usize::MAX {
            line = line + 1;
        }
        at_start = next_start;
        i = i + 1;
    }
    let mut k: usize = 0;
    let total = stack.len();
    let ghost base = errs@;
    let ghost tail = Seq::new(
        stack@.len(),
        |j: int|
            (
                crate::errors::SyntaxError::UnclosedBlock(
                    if stack@[j] {
                        crate::errors::BlockKind::LockBlock
                    } else {
                        crate::errors::BlockKind::IfBlock
                    },
                ),
                line,
            ),
    );
    proof {
        assert(syntax_scan(ws, script@.len() as int, stack@, at_start, line, errs@) == errs@
            + tail);
    }
    while k < total
        invariant
            0 <= k <= total,
            total == stack@.len(),
            tail == Seq::new(
                stack@.len(),
                |j: int|
                    (
                        crate::errors::SyntaxError::UnclosedBlock(
                            if stack@[j] {
                                crate::errors::BlockKind::LockBlock
                            } else {
                                crate::errors::BlockKind::IfBlock
                            },
                        ),
                        line,
                    ),
            ),
            errs@ == base + tail.take(k as int),
            spec_syntax_test(ws) == base + tail,
        decreases total - k,
    {
        let kind = if stack[k] {
            crate::errors::BlockKind::LockBlock
        } else {
            crate::errors::BlockKind::IfBlock
        };
        errs.push((crate::errors::SyntaxError::UnclosedBlock(kind), line));
        proof {
            assert(tail.take(k + 1) =~= tail.take(k as int).push(tail[k as int]));
            assert(errs@ =~= base + tail.take(k + 1));
        }
        k = k + 1;
    }
    proof {
        assert(tail.take(total as int) =~= tail);
        assert(errs@ =~= spec_syntax_test(ws));
    }
    errs
}

/// Index of the first newline in `s`, or `s.len()` if there is none.
pub open spec fn first_nl(s: Seq<char>) -> nat
    decreases s.len(),
{
    if s.len() == 0 {
        0
    } else if s[0] == '\n' {
        0
    } else {
        1 + first_nl(s.skip(1))
    }
}

/// A position with a newline and none before it is `first_nl`.
pub proof fn lemma_first_nl_is(s: Seq<char>, m: int)
    requires
        0 <= m <= s.len(),
        m < s.len() ==> s[m] == '\n',
        m == s.len() || s[m] == '\n',
        forall|j: int| 0 <= j < m ==> s[j] != '\n',
    ensures
        first_nl(s) == m,
    decreases s.len(),
{
    if s.len() == 0 {
    } else if s[0] == '\n' {
    } else {
        assert(m >= 1);
        assert(forall|j: int| 0 <= j < m - 1 ==> s.skip(1)[j] == s[j + 1]);
        if m - 1 < s.skip(1).len() {
            assert(s.skip(1)[m - 1] == s[m]);
        }
        lemma_first_nl_is(s.skip(1), m - 1);
    }
}

/// One word split at its embedded newlines.  Every piece before a newline
/// keeps the newline as its last character; a newline that ends the word
/// ends the last piece instead of opening an empty one.
pub open spec fn split_word(s: Seq<char>) -> Seq<Seq<char>>
    decreases s.len(),
{
    if s.len() == 0 {
        seq![]
    } else {
        let i = first_nl(s) as int;
        if i >= s.len() - 1 {
            seq![s]
        } else {
            seq![s.take(i + 1)] + split_word(s.skip(i + 1))
        }
    }
}

/// A whole word sequence split at embedded newlines.
pub open spec fn split_words(ws: Seq<Seq<char>>) -> Seq<Seq<char>>
    decreases ws.len(),
{
    if ws.len() == 0 {
        seq![]
    } else {
        split_words(ws.drop_last()) + split_word(ws.last())
    }
}

/// Split every word of the script at embedded newlines, so that a newline
/// acts as a next-command separator on the word before it.
pub fn split_newlines(script: Vec<String>) -> (r: Vec<String>)
    ensures
        r.deep_view() == split_words(script.deep_view()),
{
    let mut out: Vec<String> = Vec::new();
    let mut w: usize = 0;
    while w < script.len()
        invariant
            0 <= w <= script.len(),
            out.deep_view() == split_words(script.deep_view().take(w as int)),
        decreases script.len() - w,
    {
        let word: &String = &script[w];
        let n = word.as_str().unicode_len();
        let ghost dv = script.deep_view();
        proof {
            assert(dv.take(w + 1).drop_last() =~= dv.take(w as int));
            assert(dv.take(w + 1).last() == word@);
        }
        let mut start: usize = 0;
        proof {
            assert(word@.skip(0) =~= word@);
        }
        while start < n
            invariant
                0 <= start <= n,
                n == word@.len(),
                word@ == dv[w as int],
                0 <= w < script.len(),
                dv == script.deep_view(),
                out.deep_view() + split_word(word@.skip(start as int)) == split_words(
                    dv.take(w as int),
                ) + split_word(word@),
            decreases n - start,
        {
            // find the first newline at or after `start`
            let mut k: usize = start;
            while k < n && word.as_str().get_char(k) != '\n'
                invariant
                    start <= k <= n,
                    n == word@.len(),
                    forall|j: int| start <= j < k ==> word@[j] != '\n',
                decreases n - k,
            {
                k = k + 1;
            }
            let ghost tail = word@.skip(start as int);
            proof {
                assert(forall|j: int| 0 <= j < k - start ==> tail[j] == word@[j + start]);
                if k < n {
                    assert(tail[k - start] == word@[k as int]);
                }
                lemma_first_nl_is(tail, k - start);
            }
            if k >= n || k + 1 >= n {
                // no further newline, or the newline ends the word
                let piece = String::from_str(word.as_str().substring_char(start, n));
                proof {
                    assert(piece@ =~= tail);
                    assert(out.deep_view().push(tail) =~= out.deep_view() + seq![tail]);
                    assert(split_word(tail) == seq![tail]);
                    assert((out.deep_view() + seq![tail]) =~= out.deep_view() + split_word(
                        tail,
                    ));
                    assert(word@.skip(n as int) =~= Seq::<char>::empty());
                    assert(out.deep_view() + split_word(tail) + split_word(
                        word@.skip(n as int),
                    ) =~= out.deep_view() + split_word(tail));
                }
                out.push(piece);
                start = n;
            } else {
                let piece = String::from_str(word.as_str().substring_char(start, k + 1));
                proof {
                    assert(piece@ =~= tail.take(k + 1 - start));
                    assert(tail.skip(k + 1 - start) =~= word@.skip(k + 1));
                    assert(split_word(tail) == seq![tail.take(k + 1 - start)] + split_word(
                        tail.skip(k + 1 - start),
                    ));
                    assert(out.deep_view().push(piece@) =~= out.deep_view() + seq![
                        tail.take(k + 1 - start),
                    ]);
                    assert((out.deep_view() + seq![tail.take(k + 1 - start)]) + split_word(
                        word@.skip(k + 1),
                    ) =~= out.deep_view() + split_word(tail));
                }
                out.push(piece);
                start = k + 1;
            }
        }
        proof {
            assert(word@.skip(n as int) =~= Seq::<char>::empty());
            assert(split_word(word@.skip(n as int)) =~= Seq::<Seq<char>>::empty());
            assert(out.deep_view() + Seq::<Seq<char>>::empty() =~= out.deep_view());
            assert(split_words(dv.take(w + 1)) == split_words(dv.take(w as int)) + split_word(
                word@,
            ));
        }
        w = w + 1;
    }
    proof {
        assert(script.deep_view().take(script.len() as int) =~= script.deep_view());
    }
    out
}

} // verus!
