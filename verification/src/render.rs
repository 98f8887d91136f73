//! Rendering compiled pieces with a data value.

use crate::callback::Callback;
use crate::error::{Error, ErrorView};
use crate::piece::{chars_of, outcome, settled, views, FormatPiece, FormatPieces, PieceView};
use vstd::prelude::*;
use vstd::string::StringExecFns;

verus! {

/// `String::with_capacity`: an empty string. The capacity only reserves
/// room; std panics where it exceeds `isize::MAX`.
pub assume_specification[ String::with_capacity ](capacity: usize) -> (s: String)
    requires
        capacity <= isize::MAX,
    ensures
        s@ == Seq::<char>::empty(),
;

/// The room reserved in the output for each piece.
pub const ROOM_PER_PIECE: usize = 16;

/// The text that the pieces give when the callback of piece `i` answers
/// with `answers[i]`. Literal text is copied and an answer takes the place of
/// its placeholder; the first placeholder without an answer decides the
/// error. Answers at literal pieces play no part.
pub open spec fn assemble<T>(pieces: Seq<PieceView<T>>, answers: Seq<Option<Seq<char>>>) -> Result<
    Seq<char>,
    ErrorView,
>
    decreases pieces.len(),
{
    if pieces.len() == 0 {
        Ok(Seq::empty())
    } else {
        match assemble(pieces.drop_last(), answers.drop_last()) {
            Err(e) => Err(e),
            Ok(text) => match pieces.last() {
                PieceView::Verbatim(literal) => Ok(text + literal),
                PieceView::Reference { key, .. } => match settled(key, answers.last()) {
                    Ok(produced) => Ok(text + produced),
                    Err(e) => Err(e),
                },
            },
        }
    }
}

/// Whether piece `i` is reached: every placeholder before it has an answer.
pub open spec fn reached<T>(pieces: Seq<PieceView<T>>, answers: Seq<Option<String>>, i: int) -> bool {
    forall|j: int| 0 <= j < i && #[trigger] pieces[j] is Reference ==> answers[j] is Some
}

/// Whether `answers` can be what the callbacks gave for `data`: one answer
/// for each piece, and at each placeholder that is reached a result that its
/// callback may have for `data`.
pub open spec fn answered<T>(pieces: Seq<PieceView<T>>, data: &T, answers: Seq<Option<String>>) -> bool {
    &&& answers.len() == pieces.len()
    &&& forall|i: int|
        0 <= i < pieces.len() && reached(pieces, answers, i) ==> (#[trigger] pieces[i] matches PieceView::Reference {
            callback,
            ..
        } ==> callback.yields(data, answers[i]))
}

/// The characters of each answer.
pub open spec fn texts(answers: Seq<Option<String>>) -> Seq<Option<Seq<char>>> {
    answers.map_values(|answer: Option<String>| chars_of(answer))
}

/// Whether every callback among the pieces may be called with `data`.
pub open spec fn accepted<T>(pieces: Seq<PieceView<T>>, data: &T) -> bool {
    forall|i: int|
        0 <= i < pieces.len() ==> (#[trigger] pieces[i] matches PieceView::Reference { callback, .. }
            ==> callback.accepts(data))
}

/// Whether `result` is a rendering of `pieces` with `data`: `Overflow` where
/// the room to reserve does not fit a `usize`, and else what the pieces give
/// with answers that the callbacks may have given.
pub open spec fn rendered<T>(pieces: Seq<PieceView<T>>, data: &T, result: Result<Seq<char>, ErrorView>) -> bool {
    if pieces.len() * ROOM_PER_PIECE > usize::MAX {
        result == Err::<Seq<char>, ErrorView>(ErrorView::Overflow)
    } else {
        exists|answers: Seq<Option<String>>| #[trigger]
            answered(pieces, data, answers) && result == assemble(pieces, texts(answers))
    }
}

/// Rendering pieces into a string.
pub trait Render<T> {
    /// The pieces, in order.
    spec fn pieces(&self) -> Seq<PieceView<T>>;

    /// Renders the pieces with `data`: literal text is copied, and each
    /// placeholder is replaced by what its callback produces for `data`.
    ///
    /// Fails with `NoData` at the first placeholder whose callback produces
    /// nothing, and with `Overflow` where the room to reserve for the output
    /// does not fit a `usize`. No callback is called behind a failure.
    fn render(&self, data: &T) -> (result: Result<String, Error>)
        requires
            accepted(self.pieces(), data),
        ensures
            rendered(self.pieces(), data, outcome(result)),
    ;
}

/// Once a prefix of the pieces has failed, the pieces fail in the same way,
/// whatever answers follow.
pub proof fn lemma_failure_stays<T>(
    pieces: Seq<PieceView<T>>,
    answers: Seq<Option<Seq<char>>>,
    upto: int,
)
    requires
        0 <= upto <= pieces.len(),
        answers.len() == pieces.len(),
        assemble(pieces.take(upto), answers.take(upto)) is Err,
    ensures
        assemble(pieces, answers) == assemble(pieces.take(upto), answers.take(upto)),
    decreases pieces.len() - upto,
{
    if upto == pieces.len() {
        assert(pieces.take(upto) =~= pieces);
        assert(answers.take(upto) =~= answers);
    } else {
        assert(pieces.drop_last().take(upto) =~= pieces.take(upto));
        assert(answers.drop_last().take(upto) =~= answers.take(upto));
        lemma_failure_stays(pieces.drop_last(), answers.drop_last(), upto);
    }
}

/// What one more piece, with its answer, adds to the text of those before.
pub proof fn lemma_assemble_next<T>(
    pieces: Seq<PieceView<T>>,
    answers: Seq<Option<Seq<char>>>,
    i: int,
)
    requires
        0 <= i < pieces.len(),
        answers.len() == pieces.len(),
    ensures
        assemble(pieces.take(i + 1), answers.take(i + 1)) == (match assemble(
            pieces.take(i),
            answers.take(i),
        ) {
            Err(e) => Err(e),
            Ok(text) => match pieces[i] {
                PieceView::Verbatim(literal) => Ok(text + literal),
                PieceView::Reference { key, .. } => match settled(key, answers[i]) {
                    Ok(produced) => Ok(text + produced),
                    Err(e) => Err(e),
                },
            },
        }),
{
    assert(pieces.take(i + 1).drop_last() =~= pieces.take(i));
    assert(answers.take(i + 1).drop_last() =~= answers.take(i));
}

/// Answers for the first `i` pieces, with one for piece `i` that its
/// callback may have given, are answers for the first `i + 1` pieces.
proof fn lemma_answer_added<T>(
    pieces: Seq<PieceView<T>>,
    data: &T,
    answers: Seq<Option<String>>,
    answer: Option<String>,
    i: int,
)
    requires
        0 <= i < pieces.len(),
        answered(pieces.take(i), data, answers),
        pieces[i] matches PieceView::Reference { callback, .. } ==> callback.yields(data, answer),
    ensures
        answered(pieces.take(i + 1), data, answers.push(answer)),
{
    let longer = pieces.take(i + 1);
    let more = answers.push(answer);
    assert forall|k: int| 0 <= k < longer.len() && reached(longer, more, k) implies (
    #[trigger] longer[k] matches PieceView::Reference { callback, .. } ==> callback.yields(
        data,
        more[k],
    )) by {
        if k < i {
            assert forall|j: int| 0 <= j < k && #[trigger] pieces.take(i)[j] is Reference implies answers[j] is Some by {
                assert(longer[j] is Reference);
                assert(more[j] is Some);
            }
            assert(reached(pieces.take(i), answers, k));
            assert(pieces.take(i)[k] == longer[k]);
        }
    }
}

/// Answers that end without one at placeholder `i` can be filled up to
/// answers for all pieces: nothing behind `i` is reached.
proof fn lemma_answers_filled<T>(
    pieces: Seq<PieceView<T>>,
    data: &T,
    answers: Seq<Option<String>>,
    i: int,
) -> (filled: Seq<Option<String>>)
    requires
        0 <= i < pieces.len(),
        answered(pieces.take(i + 1), data, answers),
        pieces[i] is Reference,
        answers[i] is None,
    ensures
        answered(pieces, data, filled),
        filled.take(i + 1) == answers,
{
    let filled = answers + Seq::new((pieces.len() - i - 1) as nat, |k: int| None::<String>);
    assert(filled.take(i + 1) =~= answers);
    let shorter = pieces.take(i + 1);
    assert forall|k: int| 0 <= k < pieces.len() && reached(pieces, filled, k) implies (
    #[trigger] pieces[k] matches PieceView::Reference { callback, .. } ==> callback.yields(
        data,
        filled[k],
    )) by {
        if k <= i {
            assert forall|j: int| 0 <= j < k && #[trigger] shorter[j] is Reference implies answers[j] is Some by {
                assert(pieces[j] is Reference);
                assert(filled[j] is Some);
            }
            assert(reached(shorter, answers, k));
            assert(shorter[k] == pieces[k]);
        } else {
            assert(pieces[i] is Reference);
            assert(filled[i] is None);
        }
    }
    filled
}

impl<T> Render<T> for FormatPieces<T> {
    open spec fn pieces(&self) -> Seq<PieceView<T>> {
        views(self@)
    }

    fn render(&self, data: &T) -> (result: Result<String, Error>) {
        let room = match self.len().checked_mul(ROOM_PER_PIECE) {
            Some(room) => room,
            None => {
                return Err(Error::Overflow);
            },
        };
        let mut out = if room <= isize::MAX as usize {
            String::with_capacity(room)
        } else {
            String::new()
        };
        let ghost all = views(self@);
        let ghost mut answers: Seq<Option<String>> = Seq::empty();
        let mut i: usize = 0;
        while i < self.len()
            invariant
                all == views(self@),
                all.len() * ROOM_PER_PIECE <= usize::MAX,
                accepted(all, data),
                i <= self.len(),
                answered(all.take(i as int), data, answers),
                assemble(all.take(i as int), texts(answers)) == Ok::<Seq<char>, ErrorView>(out@),
            decreases self.len() - i,
        {
            let ghost earlier = answers;
            let ghost produced_now: Option<String>;
            let step = match &self[i] {
                FormatPiece::Verbatim(text) => {
                    proof {
                        produced_now = None;
                    }
                    out.append(text.as_str());
                    Ok(())
                },
                FormatPiece::Formatter(formatter) => {
                    assert(all[i as int] is Reference);
                    let produced = formatter.cb.produce(data);
                    proof {
                        produced_now = produced;
                    }
                    match formatter.or_no_data(produced) {
                        Ok(s) => {
                            out.append(s.as_str());
                            Ok(())
                        },
                        Err(e) => Err(e),
                    }
                },
            };
            proof {
                answers = earlier.push(produced_now);
                lemma_answer_added(all, data, earlier, produced_now, i as int);
                let padded = texts(answers) + Seq::new(
                    (all.len() - i - 1) as nat,
                    |k: int| None::<Seq<char>>,
                );
                assert(padded.take(i + 1) =~= texts(answers));
                assert(padded.take(i as int) =~= texts(earlier));
                lemma_assemble_next(all, padded, i as int);
            }
            match step {
                Ok(()) => {},
                Err(e) => {
                    proof {
                        let filled = lemma_answers_filled(all, data, answers, i as int);
                        assert(texts(filled).take(i + 1) =~= texts(answers));
                        lemma_failure_stays(all, texts(filled), i + 1);
                        assert(answered(all, data, filled));
                    }
                    return Err(e);
                },
            }
            i += 1;
        }
        proof {
            assert(all.take(i as int) =~= all);
        }
        Ok(out)
    }
}

} // verus!
