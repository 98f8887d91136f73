//! What holds of compiling and rendering together.

use crate::callback::{Callback, FormatterCallback};
use crate::error::ErrorView;
use crate::piece::{chars_of, PieceView};
use crate::render::{
    answered, assemble, lemma_assemble_next, lemma_failure_stays, reached, rendered, texts,
    ROOM_PER_PIECE,
};
use crate::template::{compile, flushed, scan_key, scan_text};
use vstd::prelude::*;

verus! {

/// Whether `c` is one of the two braces.
pub open spec fn is_brace(c: char) -> bool {
    c == '{' || c == '}'
}

/// Whether `text` holds no brace.
pub open spec fn brace_free(text: Seq<char>) -> bool {
    forall|i: int| 0 <= i < text.len() ==> !is_brace(#[trigger] text[i])
}

/// `text` written as a template: every brace doubled, all else as it is.
pub open spec fn escaped(text: Seq<char>) -> Seq<char>
    decreases text.len(),
{
    if text.len() == 0 {
        text
    } else if is_brace(text[0]) {
        seq![text[0], text[0]] + escaped(text.drop_first())
    } else {
        seq![text[0]] + escaped(text.drop_first())
    }
}

/// The pieces of a template without placeholders: one literal piece, or none
/// where the text is empty.
pub open spec fn literal<T>(text: Seq<char>) -> Seq<PieceView<T>> {
    flushed(Seq::empty(), text)
}

/// Reading on behind `head`, escaped text only adds to the literal run.
proof fn lemma_scan_escaped<T>(
    bindings: Map<Seq<char>, FormatterCallback<T>>,
    head: Seq<char>,
    text: Seq<char>,
    run: Seq<char>,
    done: Seq<PieceView<T>>,
)
    ensures
        scan_text(bindings, head + escaped(text), head.len() as int, run, done) == Ok::<
            Seq<PieceView<T>>,
            ErrorView,
        >(flushed(done, run + text)),
    decreases text.len(),
{
    let tmpl = head + escaped(text);
    let pos = head.len() as int;
    if text.len() == 0 {
        assert(tmpl =~= head);
        assert(run + text =~= run);
    } else {
        let c = text[0];
        let rest = text.drop_first();
        assert(tmpl[pos] == c);
        assert(run.push(c) + rest =~= run + text);
        if is_brace(c) {
            let longer = head + seq![c, c];
            assert(tmpl =~= longer + escaped(rest));
            assert(tmpl[pos + 1] == c);
            lemma_scan_escaped(bindings, longer, rest, run.push(c), done);
        } else {
            let longer = head + seq![c];
            assert(tmpl =~= longer + escaped(rest));
            lemma_scan_escaped(bindings, longer, rest, run.push(c), done);
        }
    }
}

/// Text without braces is its own escaped form.
proof fn lemma_escaped_brace_free(text: Seq<char>)
    requires
        brace_free(text),
    ensures
        escaped(text) == text,
    decreases text.len(),
{
    if text.len() > 0 {
        let rest = text.drop_first();
        assert forall|i: int| 0 <= i < rest.len() implies !is_brace(#[trigger] rest[i]) by {
            assert(rest[i] == text[i + 1]);
        }
        lemma_escaped_brace_free(rest);
        assert(!is_brace(text[0]));
        assert(seq![text[0]] + rest =~= text);
    }
}

/// Literal pieces render to their text, whatever the data.
proof fn lemma_literal_renders<T>(text: Seq<char>, data: &T, result: Result<Seq<char>, ErrorView>)
    requires
        rendered(literal::<T>(text), data, result),
    ensures
        result == Ok::<Seq<char>, ErrorView>(text),
{
    let pieces = literal::<T>(text);
    let answers = choose|answers: Seq<Option<String>>| #[trigger]
        answered(pieces, data, answers) && result == assemble(pieces, texts(answers));
    if text.len() > 0 {
        assert(pieces.drop_last() =~= Seq::<PieceView<T>>::empty());
        assert(assemble(pieces.drop_last(), texts(answers).drop_last()) == Ok::<
            Seq<char>,
            ErrorView,
        >(Seq::empty()));
        assert(Seq::<char>::empty() + text =~= text);
    } else {
        assert(text =~= Seq::<char>::empty());
    }
}

/// Escape round trip: a template made of literal text and doubled braces
/// only, which is the escaped form of some text, compiles for every registry
/// and renders to that text for every data value, each doubled brace having
/// become a single one.
pub proof fn lemma_escape_round_trip<T>(
    bindings: Map<Seq<char>, FormatterCallback<T>>,
    text: Seq<char>,
    data: &T,
)
    ensures
        compile(bindings, escaped(text)) == Ok::<Seq<PieceView<T>>, ErrorView>(literal(text)),
        forall|result: Result<Seq<char>, ErrorView>| #[trigger]
            rendered(literal::<T>(text), data, result) ==> result == Ok::<Seq<char>, ErrorView>(
                text,
            ),
{
    lemma_scan_escaped(bindings, Seq::empty(), text, Seq::empty(), Seq::empty());
    assert(Seq::<char>::empty() + escaped(text) =~= escaped(text));
    assert(Seq::<char>::empty() + text =~= text);
    assert forall|result: Result<Seq<char>, ErrorView>| #[trigger]
        rendered(literal::<T>(text), data, result) implies result == Ok::<Seq<char>, ErrorView>(
        text,
    ) by {
        lemma_literal_renders(text, data, result);
    }
}

/// Literal identity: a template without braces compiles for every registry
/// and renders to itself for every data value.
pub proof fn lemma_literal_identity<T>(
    bindings: Map<Seq<char>, FormatterCallback<T>>,
    text: Seq<char>,
    data: &T,
)
    requires
        brace_free(text),
    ensures
        compile(bindings, text) == Ok::<Seq<PieceView<T>>, ErrorView>(literal(text)),
        forall|result: Result<Seq<char>, ErrorView>| #[trigger]
            rendered(literal::<T>(text), data, result) ==> result == Ok::<Seq<char>, ErrorView>(
                text,
            ),
{
    lemma_escaped_brace_free(text);
    lemma_escape_round_trip(bindings, text, data);
}

/// Inside a placeholder: where `head` alone reads through to its end, the
/// longer template fails at the placeholder behind it as
/// [`lemma_unknown_key`] says.
proof fn lemma_key_then_unknown<T>(
    bindings: Map<Seq<char>, FormatterCallback<T>>,
    head: Seq<char>,
    key: Seq<char>,
    tail: Seq<char>,
    start: int,
    pos: int,
    done: Seq<PieceView<T>>,
)
    requires
        brace_free(key),
        !bindings.contains_key(key),
        0 <= start <= pos <= head.len(),
        scan_key(bindings, head, start, pos, done) is Ok,
    ensures
        scan_key(bindings, head + seq!['{'] + key + seq!['}'] + tail, start, pos, done) == Err::<
            Seq<PieceView<T>>,
            ErrorView,
        >(ErrorView::UnknownKey(key)),
    decreases head.len() - pos, 0int,
{
    let tmpl = head + seq!['{'] + key + seq!['}'] + tail;
    assert(pos < head.len());
    assert(tmpl[pos] == head[pos]);
    if head[pos] == '}' {
        assert(tmpl.subrange(start, pos) =~= head.subrange(start, pos));
        let found = head.subrange(start, pos);
        lemma_text_then_unknown(
            bindings,
            head,
            key,
            tail,
            pos + 1,
            Seq::empty(),
            done.push(PieceView::Reference { key: found, callback: bindings[found] }),
        );
    } else {
        lemma_key_then_unknown(bindings, head, key, tail, start, pos + 1, done);
    }
}

/// Reading the key of the placeholder behind `head`: no brace is met before
/// its end, and the key is not bound.
proof fn lemma_unknown_at<T>(
    bindings: Map<Seq<char>, FormatterCallback<T>>,
    head: Seq<char>,
    key: Seq<char>,
    tail: Seq<char>,
    read: int,
    done: Seq<PieceView<T>>,
)
    requires
        brace_free(key),
        !bindings.contains_key(key),
        0 <= read <= key.len(),
    ensures
        scan_key(
            bindings,
            head + seq!['{'] + key + seq!['}'] + tail,
            head.len() as int + 1,
            head.len() as int + 1 + read,
            done,
        ) == Err::<Seq<PieceView<T>>, ErrorView>(ErrorView::UnknownKey(key)),
    decreases key.len() - read,
{
    let tmpl = head + seq!['{'] + key + seq!['}'] + tail;
    let start = head.len() as int + 1;
    if read == key.len() {
        assert(tmpl[start + read] == '}');
        assert(tmpl.subrange(start, start + read) =~= key);
    } else {
        assert(tmpl[start + read] == key[read]);
        assert(!is_brace(key[read]));
        lemma_unknown_at(bindings, head, key, tail, read + 1, done);
    }
}

/// Outside a placeholder: where `head` alone reads through to its end, the
/// longer template fails at the placeholder behind it.
proof fn lemma_text_then_unknown<T>(
    bindings: Map<Seq<char>, FormatterCallback<T>>,
    head: Seq<char>,
    key: Seq<char>,
    tail: Seq<char>,
    pos: int,
    run: Seq<char>,
    done: Seq<PieceView<T>>,
)
    requires
        brace_free(key),
        !bindings.contains_key(key),
        0 <= pos <= head.len(),
        scan_text(bindings, head, pos, run, done) is Ok,
    ensures
        scan_text(bindings, head + seq!['{'] + key + seq!['}'] + tail, pos, run, done) == Err::<
            Seq<PieceView<T>>,
            ErrorView,
        >(ErrorView::UnknownKey(key)),
    decreases head.len() - pos, 1int,
{
    let tmpl = head + seq!['{'] + key + seq!['}'] + tail;
    if pos == head.len() {
        assert(tmpl[pos] == '{');
        if key.len() == 0 {
            assert(tmpl[pos + 1] == '}');
        } else {
            assert(tmpl[pos + 1] == key[0]);
            assert(!is_brace(key[0]));
        }
        lemma_unknown_at(bindings, head, key, tail, 0, done.push(PieceView::Verbatim(run)));
    } else {
        assert(tmpl[pos] == head[pos]);
        if pos + 1 < head.len() {
            assert(tmpl[pos + 1] == head[pos + 1]);
        }
        if head[pos] == '{' {
            if pos + 1 < head.len() && head[pos + 1] == '{' {
                lemma_text_then_unknown(bindings, head, key, tail, pos + 2, run.push('{'), done);
            } else {
                assert(pos + 1 < head.len());
                lemma_key_then_unknown(
                    bindings,
                    head,
                    key,
                    tail,
                    pos + 1,
                    pos + 1,
                    done.push(PieceView::Verbatim(run)),
                );
            }
        } else if head[pos] == '}' {
            lemma_text_then_unknown(bindings, head, key, tail, pos + 2, run.push('}'), done);
        } else {
            lemma_text_then_unknown(bindings, head, key, tail, pos + 1, run.push(head[pos]), done);
        }
    }
}

/// Unknown key: where a template is sound up to a placeholder whose key has
/// no binding, compiling fails with `UnknownKey` and exactly the characters
/// between that placeholder's braces, whatever follows it.
pub proof fn lemma_unknown_key<T>(
    bindings: Map<Seq<char>, FormatterCallback<T>>,
    head: Seq<char>,
    key: Seq<char>,
    tail: Seq<char>,
)
    requires
        compile(bindings, head) is Ok,
        brace_free(key),
        !bindings.contains_key(key),
    ensures
        compile(bindings, head + seq!['{'] + key + seq!['}'] + tail) == Err::<
            Seq<PieceView<T>>,
            ErrorView,
        >(ErrorView::UnknownKey(key)),
{
    lemma_text_then_unknown(bindings, head, key, tail, 0, Seq::empty(), Seq::empty());
}

/// Where a piece is reached, the pieces before it have given their text.
proof fn lemma_reached_gives_text<T>(
    pieces: Seq<PieceView<T>>,
    answers: Seq<Option<String>>,
    upto: int,
)
    requires
        answers.len() == pieces.len(),
        0 <= upto <= pieces.len(),
        reached(pieces, answers, upto),
    ensures
        assemble(pieces.take(upto), texts(answers).take(upto)) is Ok,
    decreases upto,
{
    if upto > 0 {
        assert(reached(pieces, answers, upto - 1));
        lemma_reached_gives_text(pieces, answers, upto - 1);
        lemma_assemble_next(pieces, texts(answers), upto - 1);
        assert(pieces[upto - 1] is Reference ==> answers[upto - 1] is Some);
    } else {
        assert(pieces.take(0) =~= Seq::<PieceView<T>>::empty());
    }
}

/// Where the pieces before a piece have given their text, it is reached.
proof fn lemma_text_gives_reached<T>(
    pieces: Seq<PieceView<T>>,
    answers: Seq<Option<String>>,
    upto: int,
)
    requires
        answers.len() == pieces.len(),
        0 <= upto <= pieces.len(),
        assemble(pieces.take(upto), texts(answers).take(upto)) is Ok,
    ensures
        reached(pieces, answers, upto),
    decreases upto,
{
    if upto > 0 {
        lemma_assemble_next(pieces, texts(answers), upto - 1);
        lemma_text_gives_reached(pieces, answers, upto - 1);
        assert forall|j: int| 0 <= j < upto && #[trigger] pieces[j] is Reference implies answers[j] is Some by {
            if j == upto - 1 {
                assert(texts(answers)[j] == chars_of(answers[j]));
            }
        }
    }
}

/// Whether the callback of every placeholder among the pieces can give only
/// one text, or only no text, for `data`.
pub open spec fn deterministic<T>(pieces: Seq<PieceView<T>>, data: &T) -> bool {
    forall|i: int, a: Option<String>, b: Option<String>|
        #![trigger pieces[i]->callback.yields(data, a), pieces[i]->callback.yields(data, b)]
        0 <= i < pieces.len() && pieces[i] is Reference && pieces[i]->callback.yields(data, a)
            && pieces[i]->callback.yields(data, b) ==> chars_of(a) == chars_of(b)
}

/// With deterministic callbacks, two sets of answers give the same text, or
/// the same error, up to any piece.
proof fn lemma_same_answers<T>(
    pieces: Seq<PieceView<T>>,
    data: &T,
    first: Seq<Option<String>>,
    second: Seq<Option<String>>,
    upto: int,
)
    requires
        deterministic(pieces, data),
        answered(pieces, data, first),
        answered(pieces, data, second),
        0 <= upto <= pieces.len(),
    ensures
        assemble(pieces.take(upto), texts(first).take(upto)) == assemble(
            pieces.take(upto),
            texts(second).take(upto),
        ),
    decreases upto,
{
    if upto > 0 {
        let i = upto - 1;
        lemma_same_answers(pieces, data, first, second, i);
        lemma_assemble_next(pieces, texts(first), i);
        lemma_assemble_next(pieces, texts(second), i);
        if assemble(pieces.take(i), texts(first).take(i)) is Ok {
            lemma_text_gives_reached(pieces, first, i);
            lemma_text_gives_reached(pieces, second, i);
            match pieces[i] {
                PieceView::Verbatim(_) => {},
                PieceView::Reference { key, callback } => {
                    assert(callback.yields(data, first[i]));
                    assert(callback.yields(data, second[i]));
                    assert(chars_of(first[i]) == chars_of(second[i]));
                },
            }
        }
    } else {
        assert(texts(first).take(0) =~= texts(second).take(0));
    }
}

/// With deterministic callbacks, pieces and data decide what rendering
/// gives.
pub proof fn lemma_render_deterministic<T>(
    pieces: Seq<PieceView<T>>,
    data: &T,
    first: Result<Seq<char>, ErrorView>,
    second: Result<Seq<char>, ErrorView>,
)
    requires
        deterministic(pieces, data),
        rendered(pieces, data, first),
        rendered(pieces, data, second),
    ensures
        first == second,
{
    if pieces.len() * ROOM_PER_PIECE <= usize::MAX {
        let a = choose|answers: Seq<Option<String>>| #[trigger]
            answered(pieces, data, answers) && first == assemble(pieces, texts(answers));
        let b = choose|answers: Seq<Option<String>>| #[trigger]
            answered(pieces, data, answers) && second == assemble(pieces, texts(answers));
        lemma_same_answers(pieces, data, a, b, pieces.len() as int);
        assert(pieces.take(pieces.len() as int) =~= pieces);
        assert(texts(a).take(pieces.len() as int) =~= texts(a));
        assert(texts(b).take(pieces.len() as int) =~= texts(b));
    }
}

/// Reuse: with deterministic callbacks, rendering pieces that were compiled
/// once, first with one data value and then with another, gives what
/// rendering gives with pieces compiled anew before each.
pub proof fn lemma_reuse<T>(
    bindings: Map<Seq<char>, FormatterCallback<T>>,
    tmpl: Seq<char>,
    once: Seq<PieceView<T>>,
    anew_one: Seq<PieceView<T>>,
    anew_two: Seq<PieceView<T>>,
    data_one: &T,
    data_two: &T,
    reused_one: Result<Seq<char>, ErrorView>,
    reused_two: Result<Seq<char>, ErrorView>,
    fresh_one: Result<Seq<char>, ErrorView>,
    fresh_two: Result<Seq<char>, ErrorView>,
)
    requires
        compile(bindings, tmpl) == Ok::<Seq<PieceView<T>>, ErrorView>(once),
        compile(bindings, tmpl) == Ok::<Seq<PieceView<T>>, ErrorView>(anew_one),
        compile(bindings, tmpl) == Ok::<Seq<PieceView<T>>, ErrorView>(anew_two),
        deterministic(once, data_one),
        deterministic(once, data_two),
        rendered(once, data_one, reused_one),
        rendered(once, data_two, reused_two),
        rendered(anew_one, data_one, fresh_one),
        rendered(anew_two, data_two, fresh_two),
    ensures
        reused_one == fresh_one,
        reused_two == fresh_two,
{
    lemma_render_deterministic(once, data_one, reused_one, fresh_one);
    lemma_render_deterministic(once, data_two, reused_two, fresh_two);
}

/// No data: where the callback of placeholder `at` gives nothing for `data`
/// and the callbacks of the placeholders before it all give text, rendering
/// fails with `NoData` and the key of `at`, wherever `at` stands among the
/// pieces.
pub proof fn lemma_no_data<T>(
    pieces: Seq<PieceView<T>>,
    data: &T,
    at: int,
    result: Result<Seq<char>, ErrorView>,
)
    requires
        pieces.len() * ROOM_PER_PIECE <= usize::MAX,
        0 <= at < pieces.len(),
        pieces[at] is Reference,
        forall|out: Option<String>| #[trigger] pieces[at]->callback.yields(data, out) ==> out is None,
        forall|j: int, out: Option<String>|
            0 <= j < at && pieces[j] is Reference && #[trigger] pieces[j]->callback.yields(data, out)
                ==> out is Some,
        rendered(pieces, data, result),
    ensures
        result == Err::<Seq<char>, ErrorView>(ErrorView::NoData(pieces[at]->key)),
{
    let answers = choose|answers: Seq<Option<String>>| #[trigger]
        answered(pieces, data, answers) && result == assemble(pieces, texts(answers));
    lemma_all_reached(pieces, data, answers, at);
    lemma_reached_gives_text(pieces, answers, at);
    lemma_assemble_next(pieces, texts(answers), at);
    assert(answers[at] is None);
    assert(texts(answers)[at] == chars_of(answers[at]));
    lemma_failure_stays(pieces, texts(answers), at + 1);
}

/// Where the callbacks of the first placeholders all give text, the piece
/// behind them is reached.
proof fn lemma_all_reached<T>(
    pieces: Seq<PieceView<T>>,
    data: &T,
    answers: Seq<Option<String>>,
    upto: int,
)
    requires
        0 <= upto <= pieces.len(),
        answered(pieces, data, answers),
        forall|j: int, out: Option<String>|
            0 <= j < upto && pieces[j] is Reference && #[trigger] pieces[j]->callback.yields(data, out)
                ==> out is Some,
    ensures
        reached(pieces, answers, upto),
    decreases upto,
{
    if upto > 0 {
        lemma_all_reached(pieces, data, answers, upto - 1);
        assert forall|j: int| 0 <= j < upto && #[trigger] pieces[j] is Reference implies answers[j] is Some by {
            if j == upto - 1 {
                assert(pieces[j]->callback.yields(data, answers[j]));
            }
        }
    }
}

/// Whether every placeholder among the pieces has a key without braces that
/// `bindings` holds, and the callback that the key is bound to.
pub open spec fn bound<T>(
    bindings: Map<Seq<char>, FormatterCallback<T>>,
    pieces: Seq<PieceView<T>>,
) -> bool {
    forall|i: int|
        0 <= i < pieces.len() && #[trigger] pieces[i] is Reference ==> {
            &&& brace_free(pieces[i]->key)
            &&& bindings.contains_key(pieces[i]->key)
            &&& pieces[i]->callback == bindings[pieces[i]->key]
        }
}

/// Whether literal pieces and placeholders take turns, a literal piece
/// first: no two literal pieces stand side by side.
pub open spec fn alternating<T>(pieces: Seq<PieceView<T>>) -> bool {
    forall|i: int|
        0 <= i < pieces.len() ==> ((#[trigger] pieces[i] is Verbatim) <==> i % 2 == 0)
}

/// Outside a placeholder, behind pieces that are bound and take turns.
proof fn lemma_text_keeps_shape<T>(
    bindings: Map<Seq<char>, FormatterCallback<T>>,
    tmpl: Seq<char>,
    pos: int,
    run: Seq<char>,
    done: Seq<PieceView<T>>,
)
    requires
        0 <= pos,
        bound(bindings, done),
        alternating(done),
        done.len() % 2 == 0,
        scan_text(bindings, tmpl, pos, run, done) is Ok,
    ensures
        bound(bindings, scan_text(bindings, tmpl, pos, run, done)->Ok_0),
        alternating(scan_text(bindings, tmpl, pos, run, done)->Ok_0),
    decreases tmpl.len() - pos, 1int,
{
    if pos >= tmpl.len() {
    } else if tmpl[pos] == '{' {
        if pos + 1 < tmpl.len() && tmpl[pos + 1] == '{' {
            lemma_text_keeps_shape(bindings, tmpl, pos + 2, run.push('{'), done);
        } else {
            assert(tmpl.subrange(pos + 1, pos + 1) =~= Seq::<char>::empty());
            lemma_key_keeps_shape(
                bindings,
                tmpl,
                pos + 1,
                pos + 1,
                done.push(PieceView::Verbatim(run)),
            );
        }
    } else if tmpl[pos] == '}' {
        lemma_text_keeps_shape(bindings, tmpl, pos + 2, run.push('}'), done);
    } else {
        lemma_text_keeps_shape(bindings, tmpl, pos + 1, run.push(tmpl[pos]), done);
    }
}

/// Inside a placeholder, behind pieces that are bound and take turns.
proof fn lemma_key_keeps_shape<T>(
    bindings: Map<Seq<char>, FormatterCallback<T>>,
    tmpl: Seq<char>,
    start: int,
    pos: int,
    done: Seq<PieceView<T>>,
)
    requires
        0 <= start <= pos,
        brace_free(tmpl.subrange(start, pos)),
        bound(bindings, done),
        alternating(done),
        done.len() % 2 == 1,
        scan_key(bindings, tmpl, start, pos, done) is Ok,
    ensures
        bound(bindings, scan_key(bindings, tmpl, start, pos, done)->Ok_0),
        alternating(scan_key(bindings, tmpl, start, pos, done)->Ok_0),
    decreases tmpl.len() - pos, 0int,
{
    assert(pos < tmpl.len());
    if tmpl[pos] == '}' {
        let key = tmpl.subrange(start, pos);
        lemma_text_keeps_shape(
            bindings,
            tmpl,
            pos + 1,
            Seq::empty(),
            done.push(PieceView::Reference { key, callback: bindings[key] }),
        );
    } else {
        let longer = tmpl.subrange(start, pos + 1);
        assert forall|i: int| 0 <= i < longer.len() implies !is_brace(#[trigger] longer[i]) by {
            if i < pos - start {
                assert(longer[i] == tmpl.subrange(start, pos)[i]);
            }
        }
        lemma_key_keeps_shape(bindings, tmpl, start, pos + 1, done);
    }
}

/// The shape of compiled pieces: literal pieces and placeholders take turns,
/// so that literal text between two placeholders is one piece, and every
/// placeholder holds a key of the registry with the callback bound to it.
pub proof fn lemma_compiled_shape<T>(
    bindings: Map<Seq<char>, FormatterCallback<T>>,
    tmpl: Seq<char>,
)
    requires
        compile(bindings, tmpl) is Ok,
    ensures
        bound(bindings, compile(bindings, tmpl)->Ok_0),
        alternating(compile(bindings, tmpl)->Ok_0),
{
    lemma_text_keeps_shape(bindings, tmpl, 0, Seq::empty(), Seq::empty());
}

} // verus!
