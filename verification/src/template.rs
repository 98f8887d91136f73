//! Compiling a template against a registry.
//!
//! A template is read once, from left to right. Outside a placeholder, `{{`
//! and `}}` stand for one literal brace, a single `{` opens a placeholder
//! and a single `}` is an error. Inside a placeholder, `}` ends the key,
//! which is then looked up, and `{` is an error. Literal text between two
//! placeholders is kept as one piece.

use crate::callback::{share, FormatterCallback};
use crate::error::{Error, ErrorView};
use crate::piece::{views, FormatPiece, FormatPieces, Formatter, PieceView};
use crate::registry::FormatMap;
use crate::text::Text;
use vstd::prelude::*;

verus! {

/// The pieces read so far, with the literal text that follows them. An empty
/// text adds nothing.
pub open spec fn flushed<T>(done: Seq<PieceView<T>>, run: Seq<char>) -> Seq<PieceView<T>> {
    if run.len() > 0 {
        done.push(PieceView::Verbatim(run))
    } else {
        done
    }
}

/// Reads `tmpl` from `pos` on, outside a placeholder. `done` holds the pieces
/// read so far and `run` the literal text since the last of them.
pub open spec fn scan_text<T>(
    bindings: Map<Seq<char>, FormatterCallback<T>>,
    tmpl: Seq<char>,
    pos: int,
    run: Seq<char>,
    done: Seq<PieceView<T>>,
) -> Result<Seq<PieceView<T>>, ErrorView>
    decreases tmpl.len() - pos, 1int,
{
    if pos < 0 || pos >= tmpl.len() {
        Ok(flushed(done, run))
    } else if tmpl[pos] == '{' {
        if pos + 1 < tmpl.len() && tmpl[pos + 1] == '{' {
            scan_text(bindings, tmpl, pos + 2, run.push('{'), done)
        } else {
            scan_key(bindings, tmpl, pos + 1, pos + 1, done.push(PieceView::Verbatim(run)))
        }
    } else if tmpl[pos] == '}' {
        if pos + 1 < tmpl.len() && tmpl[pos + 1] == '}' {
            scan_text(bindings, tmpl, pos + 2, run.push('}'), done)
        } else {
            Err(ErrorView::ImbalancedBrackets)
        }
    } else {
        scan_text(bindings, tmpl, pos + 1, run.push(tmpl[pos]), done)
    }
}

/// Reads `tmpl` from `pos` on, inside a placeholder whose key began at
/// `start`.
pub open spec fn scan_key<T>(
    bindings: Map<Seq<char>, FormatterCallback<T>>,
    tmpl: Seq<char>,
    start: int,
    pos: int,
    done: Seq<PieceView<T>>,
) -> Result<Seq<PieceView<T>>, ErrorView>
    decreases tmpl.len() - pos, 0int,
{
    if pos < 0 || pos >= tmpl.len() {
        Err(ErrorView::ImbalancedBrackets)
    } else if tmpl[pos] == '{' {
        Err(ErrorView::ImbalancedBrackets)
    } else if tmpl[pos] == '}' {
        let key = tmpl.subrange(start, pos);
        if bindings.contains_key(key) {
            scan_text(
                bindings,
                tmpl,
                pos + 1,
                Seq::empty(),
                done.push(PieceView::Reference { key, callback: bindings[key] }),
            )
        } else {
            Err(ErrorView::UnknownKey(key))
        }
    } else {
        scan_key(bindings, tmpl, start, pos + 1, done)
    }
}

/// What compiling `tmpl` against `bindings` gives: the pieces in the order
/// of the template, or the first error met on the way.
pub open spec fn compile<T>(bindings: Map<Seq<char>, FormatterCallback<T>>, tmpl: Seq<char>) -> Result<
    Seq<PieceView<T>>,
    ErrorView,
> {
    scan_text(bindings, tmpl, 0, Seq::empty(), Seq::empty())
}

/// The result of a compilation, pieces and error by their views.
pub open spec fn compiled<T>(result: Result<FormatPieces<T>, Error>) -> Result<
    Seq<PieceView<T>>,
    ErrorView,
> {
    match result {
        Ok(pieces) => Ok(views(pieces@)),
        Err(e) => Err(e@),
    }
}

/// Compiling templates into pieces.
pub trait ToFormatPieces<T> {
    /// The keys that a template may name, each with its callback.
    spec fn bindings(&self) -> Map<Seq<char>, FormatterCallback<T>>;

    /// Compiles `tmpl`.
    ///
    /// `{foo}` in the template becomes a piece that holds the callback bound
    /// to `foo`; `{{` and `}}` become literal braces; all other text is
    /// copied.
    ///
    /// Fails with `ImbalancedBrackets` where the braces do not pair up, and
    /// with `UnknownKey` where a placeholder names a key without a binding;
    /// of several defects the leftmost decides.
    fn to_format_pieces(&self, tmpl: &str) -> (result: Result<FormatPieces<T>, Error>)
        ensures
            compiled(result) == compile(self.bindings(), tmpl@),
    ;
}

/// Where the reader stands between two characters.
enum Scan {
    /// Outside a placeholder.
    Text,
    /// Behind a `}` outside a placeholder, which is literal only if doubled.
    Closing,
    /// Behind a `{`, which is literal only if doubled.
    Opened,
    /// Inside a placeholder, behind the first character of its key.
    Key,
}

impl<T> ToFormatPieces<T> for FormatMap<T> {
    open spec fn bindings(&self) -> Map<Seq<char>, FormatterCallback<T>> {
        self@
    }

    fn to_format_pieces(&self, tmpl: &str) -> (result: Result<FormatPieces<T>, Error>) {
        let mut pieces: Vec<FormatPiece<T>> = Vec::new();
        let mut run = Text::new();
        let mut key = Text::new();
        let mut state = Scan::Text;
        let ghost mut start: int = 0;
        assert(views(pieces@) =~= Seq::<PieceView<T>>::empty());
        for c in it: tmpl.chars()
            invariant
                it.seq() == tmpl@,
                match state {
                    Scan::Text => compile(self@, tmpl@) == scan_text(
                        self@,
                        tmpl@,
                        it.index() as int,
                        run@,
                        views(pieces@),
                    ),
                    Scan::Closing => {
                        &&& it.index() >= 1
                        &&& tmpl@[it.index() - 1] == '}'
                        &&& compile(self@, tmpl@) == scan_text(
                            self@,
                            tmpl@,
                            it.index() - 1,
                            run@,
                            views(pieces@),
                        )
                    },
                    Scan::Opened => {
                        &&& it.index() >= 1
                        &&& tmpl@[it.index() - 1] == '{'
                        &&& compile(self@, tmpl@) == scan_text(
                            self@,
                            tmpl@,
                            it.index() - 1,
                            run@,
                            views(pieces@),
                        )
                    },
                    Scan::Key => {
                        &&& 0 <= start <= it.index()
                        &&& run@ == Seq::<char>::empty()
                        &&& key@ == tmpl@.subrange(start, it.index() as int)
                        &&& compile(self@, tmpl@) == scan_key(
                            self@,
                            tmpl@,
                            start,
                            it.index() as int,
                            views(pieces@),
                        )
                    },
                },
        {
            let ghost pos = it.index() as int;
            let ghost before = views(pieces@);
            let ghost literal = run@;
            match state {
                Scan::Text => {
                    if c == '{' {
                        state = Scan::Opened;
                    } else if c == '}' {
                        state = Scan::Closing;
                    } else {
                        run.push(c);
                    }
                },
                Scan::Closing => {
                    if c == '}' {
                        run.push(c);
                        state = Scan::Text;
                    } else {
                        return Err(Error::ImbalancedBrackets);
                    }
                },
                Scan::Opened | Scan::Key => {
                    let opened = match state {
                        Scan::Opened => true,
                        _ => false,
                    };
                    if c == '{' {
                        if opened {
                            run.push(c);
                            state = Scan::Text;
                        } else {
                            return Err(Error::ImbalancedBrackets);
                        }
                    } else {
                        if opened {
                            pieces.push(FormatPiece::Verbatim(run));
                            run = Text::new();
                            key = Text::new();
                            state = Scan::Key;
                            proof {
                                start = pos;
                                assert(views(pieces@) =~= before.push(PieceView::Verbatim(literal)));
                                assert(key@ =~= tmpl@.subrange(start, pos));
                                assert(scan_text(self@, tmpl@, pos - 1, literal, before) == scan_key(
                                    self@,
                                    tmpl@,
                                    pos,
                                    pos,
                                    views(pieces@),
                                ));
                            }
                        }
                        if c == '}' {
                            match self.lookup(key.as_str()) {
                                Some(callback) => {
                                    let cb = share(callback);
                                    let ghost middle = views(pieces@);
                                    let ghost name = key@;
                                    pieces.push(FormatPiece::Formatter(Formatter { key, cb }));
                                    key = Text::new();
                                    state = Scan::Text;
                                    proof {
                                        assert(views(pieces@) =~= middle.push(
                                            PieceView::Reference { key: name, callback: self@[name] },
                                        ));
                                    }
                                },
                                None => {
                                    return Err(Error::UnknownKey(key));
                                },
                            }
                        } else {
                            key.push(c);
                            proof {
                                assert(tmpl@.subrange(start, pos + 1) =~= tmpl@.subrange(
                                    start,
                                    pos,
                                ).push(c));
                            }
                        }
                    }
                },
            }
        }
        let ghost end = tmpl@.len() as int;
        proof {
            match state {
                Scan::Text => {},
                Scan::Closing => {
                    assert(scan_text(self@, tmpl@, end - 1, run@, views(pieces@)) is Err);
                },
                Scan::Opened => {
                    assert(scan_key(
                        self@,
                        tmpl@,
                        end,
                        end,
                        views(pieces@).push(PieceView::Verbatim(run@)),
                    ) is Err);
                    assert(scan_text(self@, tmpl@, end - 1, run@, views(pieces@)) is Err);
                },
                Scan::Key => {
                    assert(scan_key(self@, tmpl@, start, end, views(pieces@)) is Err);
                },
            }
        }
        match state {
            Scan::Text => {
                if !run.as_str().is_empty() {
                    let ghost before = views(pieces@);
                    let ghost literal = run@;
                    pieces.push(FormatPiece::Verbatim(run));
                    proof {
                        assert(views(pieces@) =~= before.push(PieceView::Verbatim(literal)));
                    }
                }
                Ok(pieces)
            },
            _ => Err(Error::ImbalancedBrackets),
        }
    }
}

} // verus!
