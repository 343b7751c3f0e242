//! The token cursor: a non-owning, cheaply cloneable window over a contiguous
//! part of a token buffer, together with the source it was lexed from.

use crate::error::{error_for, ParseError, ParseErrorKind};
use crate::lex::{
    find_first_error, has_lex_error, is_first_lex_error_at, lemma_scan_span_bounds, scan_source,
    scanned,
};
use crate::token::{Span, Token, TokenRecord};
use vstd::prelude::*;

verus! {

broadcast use vstd::slice::axiom_spec_len;

/// A read-only view over a contiguous sub-slice of a token buffer plus the
/// original source text. Cursors own neither; cloning one copies only the
/// two references.
#[derive(Clone, Copy)]
pub struct Input<'i, 'b> {
    source: &'i [u8],
    tokens: &'b [TokenRecord],
}

impl<'i, 'b> Input<'i, 'b> {
    /// The source bytes the cursor refers back into.
    pub closed spec fn src(self) -> Seq<u8> {
        self.source@
    }

    /// The token records currently in view.
    pub closed spec fn recs(self) -> Seq<TokenRecord> {
        self.tokens@
    }

    /// Every span in view is a well-formed range into the source.
    pub open spec fn wf(self) -> bool {
        forall|k: int| 0 <= k < self.recs().len() ==> {
            let span = (#[trigger] self.recs()[k]).span;
            span.start <= span.end && span.end <= self.src().len()
        }
    }
}

/// The element sequence of a cursor: each token paired with the source bytes
/// its span delimits. Absolute offsets are deliberately absent, so that the
/// view is the right notion for content equality.
impl<'i, 'b> View for Input<'i, 'b> {
    type V = Seq<(Token, Seq<u8>)>;

    open spec fn view(&self) -> Seq<(Token, Seq<u8>)> {
        Seq::new(
            self.recs().len(),
            |k: int|
                (
                    self.recs()[k].token,
                    self.src().subrange(self.recs()[k].span.start as int, self.recs()[k].span.end as int),
                ),
        )
    }
}

impl<'i, 'b> Input<'i, 'b> {
    /// Lex the whole source into the empty, caller-owned buffer, then either
    /// return a cursor spanning the full buffer, or the first lexical error,
    /// located at its byte range. The buffer is filled with the complete
    /// token sequence of the source either way.
    pub fn tokenize(source: &'i [u8], buf: &'b mut Vec<TokenRecord>) -> (r: Result<
        Input<'i, 'b>,
        ParseError,
    >)
        requires
            old(buf)@.len() == 0,
        ensures
            final(buf)@ == scanned(source@),
            match r {
                Ok(cursor) => !has_lex_error(scanned(source@)) && cursor.src() == source@
                    && cursor.recs() == scanned(source@) && cursor.wf(),
                Err(e) => exists|k: int|
                    #[trigger] is_first_lex_error_at(scanned(source@), k) && e == error_for(
                        scanned(source@)[k],
                    ),
            },
    {
        scan_source(source, buf);
        match find_first_error(buf.as_slice()) {
            Some(k) => {
                let rec = *vstd::slice::slice_index_get(buf.as_slice(), k);
                let kind = match rec.token {
                    Token::ErrorMsg(m) => ParseErrorKind::LexErrorWithMessage(m),
                    _ => ParseErrorKind::LexError,
                };
                proof {
                    assert(is_first_lex_error_at(scanned(source@), k as int));
                }
                Err(kind.at(rec.span))
            },
            None => {
                proof {
                    assert(source@.len() == vstd::slice::spec_slice_len(source));
                    lemma_scan_span_bounds(source@, 0);
                }
                Ok(Input { source, tokens: buf.as_slice() })
            },
        }
    }

    /// True iff no records remain in view.
    pub fn is_empty(&self) -> (r: bool)
        ensures
            r == (self@.len() == 0),
    {
        self.tokens.len() == 0
    }

    /// Number of records in view (not source bytes).
    pub fn input_len(&self) -> (r: usize)
        ensures
            r == self@.len(),
    {
        self.tokens.len()
    }

    /// The byte range of the first record in view; on an empty view, the
    /// empty range at the end of the source, so diagnostics can point at
    /// end of input.
    pub fn index(&self) -> (r: Span)
        ensures
            self.recs().len() > 0 ==> r == self.recs()[0].span,
            self.recs().len() == 0 ==> r == (Span { start: self.src().len() as usize, end: self.src().len() as usize }),
    {
        if self.tokens.len() > 0 {
            vstd::slice::slice_index_get(self.tokens, 0).span
        } else {
            Span { start: self.source.len(), end: self.source.len() }
        }
    }

    /// The first record's token and the source bytes its span delimits,
    /// without consuming it; nothing on an empty view. The returned slice
    /// borrows the original source: tokens never duplicate source bytes.
    pub fn peek(&self) -> (r: Option<(Token, &'i [u8])>)
        requires
            self.wf(),
        ensures
            match r {
                Some(p) => self@.len() > 0 && p.0 == self@[0].0 && p.1@ == self@[0].1,
                None => self@.len() == 0,
            },
    {
        if self.tokens.len() > 0 {
            let rec = *vstd::slice::slice_index_get(self.tokens, 0);
            let text = vstd::slice::slice_subrange(self.source, rec.span.start, rec.span.end);
            Some((rec.token, text))
        } else {
            None
        }
    }

    /// Stateful iteration: yield the first element and shrink the view by
    /// one record; nothing, and no change, on an empty view.
    pub fn next(&mut self) -> (r: Option<(Token, &'i [u8])>)
        requires
            old(self).wf(),
        ensures
            final(self).src() == old(self).src(),
            final(self).wf(),
            match r {
                Some(p) => old(self)@.len() > 0 && p.0 == old(self)@[0].0 && p.1@ == old(self)@[0].1
                    && final(self).recs() == old(self).recs().subrange(
                    1,
                    old(self).recs().len() as int,
                ) && final(self)@ == old(self)@.subrange(1, old(self)@.len() as int),
                None => old(self)@.len() == 0 && *final(self) == *old(self),
            },
    {
        if self.tokens.len() > 0 {
            let rec = *vstd::slice::slice_index_get(self.tokens, 0);
            let text = vstd::slice::slice_subrange(self.source, rec.span.start, rec.span.end);
            self.tokens = vstd::slice::slice_subrange(self.tokens, 1, self.tokens.len());
            proof {
                assert(self@ =~= old(self)@.subrange(1, old(self)@.len() as int));
            }
            Some((rec.token, text))
        } else {
            None
        }
    }

    /// An independent cursor over the same references, for read-only
    /// iteration that leaves the receiver untouched.
    pub fn iter_elements(&self) -> (r: Self)
        ensures
            r == *self,
    {
        Input { source: self.source, tokens: self.tokens }
    }

    /// 0-based index of the first element the predicate accepts, scanning
    /// from the front; nothing when no element matches.
    pub fn position<P: Fn((Token, &'i [u8])) -> bool>(&self, predicate: P) -> (r: Option<usize>)
        requires
            self.wf(),
            forall|x: (Token, &'i [u8])| #[trigger] call_requires(predicate, (x,)),
        ensures
            match r {
                Some(i) => 0 <= i < self@.len() && (exists|s: &[u8]|
                    s@ == self@[i as int].1 && #[trigger] call_ensures(
                        predicate,
                        ((self@[i as int].0, s),),
                        true,
                    )) && forall|m: int| 0 <= m < i ==> exists|s: &[u8]|
                    s@ == (#[trigger] self@[m]).1 && call_ensures(predicate, ((self@[m].0, s),), false),
                None => forall|m: int| 0 <= m < self@.len() ==> exists|s: &[u8]|
                    s@ == (#[trigger] self@[m]).1 && call_ensures(predicate, ((self@[m].0, s),), false),
            },
    {
        let mut k: usize = 0;
        while k < self.tokens.len()
            invariant
                self.wf(),
                k <= self.recs().len(),
                forall|x: (Token, &'i [u8])| #[trigger] call_requires(predicate, (x,)),
                forall|m: int| 0 <= m < k ==> exists|s: &[u8]|
                    s@ == (#[trigger] self@[m]).1 && call_ensures(predicate, ((self@[m].0, s),), false),
            decreases self.recs().len() - k,
        {
            let rec = *vstd::slice::slice_index_get(self.tokens, k);
            let text = vstd::slice::slice_subrange(self.source, rec.span.start, rec.span.end);
            proof {
                assert(self@[k as int].0 == rec.token);
                assert(self@[k as int].1 == text@);
            }
            if predicate((rec.token, text)) {
                return Some(k);
            }
            k += 1;
        }
        None
    }

    /// Admissibility of a requested element count: the count itself when at
    /// most the number of records in view, otherwise the exact number of
    /// further elements that would be needed.
    pub fn slice_index(&self, count: usize) -> (r: Result<usize, usize>)
        ensures
            count <= self@.len() ==> r == Ok::<usize, usize>(count),
            count > self@.len() ==> r == Err::<usize, usize>((count - self@.len()) as usize),
    {
        if count <= self.tokens.len() {
            Ok(count)
        } else {
            Err(count - self.tokens.len())
        }
    }

    /// A new cursor over exactly the first `count` records of the view.
    /// Requesting more than is in view is a caller contract violation.
    pub fn take(&self, count: usize) -> (r: Self)
        requires
            count <= self@.len(),
        ensures
            r.src() == self.src(),
            r.recs() == self.recs().subrange(0, count as int),
            r@ == self@.subrange(0, count as int),
            self.wf() ==> r.wf(),
    {
        let r = Input {
            source: self.source,
            tokens: vstd::slice::slice_subrange(self.tokens, 0, count),
        };
        proof {
            assert(r@ =~= self@.subrange(0, count as int));
        }
        r
    }

    /// Split the view at `count`: the first cursor holds exactly the first
    /// `count` records, the second the remainder; both share the source.
    pub fn take_split(&self, count: usize) -> (r: (Self, Self))
        requires
            count <= self@.len(),
        ensures
            r.0.src() == self.src() && r.1.src() == self.src(),
            r.0.recs() == self.recs().subrange(0, count as int),
            r.1.recs() == self.recs().subrange(count as int, self.recs().len() as int),
            r.0@ == self@.subrange(0, count as int),
            r.1@ == self@.subrange(count as int, self@.len() as int),
            self.wf() ==> r.0.wf() && r.1.wf(),
    {
        let left = Input {
            source: self.source,
            tokens: vstd::slice::slice_subrange(self.tokens, 0, count),
        };
        let right = Input {
            source: self.source,
            tokens: vstd::slice::slice_subrange(self.tokens, count, self.tokens.len()),
        };
        proof {
            assert(left@ =~= self@.subrange(0, count as int));
            assert(right@ =~= self@.subrange(count as int, self@.len() as int));
        }
        (left, right)
    }

    /// Content equality: the element sequences agree pairwise as
    /// `(token, matched source bytes)`. Absolute byte offsets, and which
    /// buffer each cursor came from, play no part.
    pub fn eq(&self, other: &Input) -> (r: bool)
        requires
            self.wf(),
            other.wf(),
        ensures
            r == (self@ == other@),
    {
        if self.tokens.len() != other.tokens.len() {
            return false;
        }
        let mut k: usize = 0;
        while k < self.tokens.len()
            invariant
                self.wf(),
                other.wf(),
                self@.len() == other@.len(),
                k <= self@.len(),
                forall|m: int| 0 <= m < k ==> self@[m] == other@[m],
            decreases self@.len() - k,
        {
            let a = *vstd::slice::slice_index_get(self.tokens, k);
            let b = *vstd::slice::slice_index_get(other.tokens, k);
            proof {
                assert(self@[k as int].0 == a.token);
                assert(other@[k as int].0 == b.token);
            }
            if a.token != b.token {
                proof {
                    assert(self@[k as int] != other@[k as int]);
                }
                return false;
            }
            let a_text = vstd::slice::slice_subrange(self.source, a.span.start, a.span.end);
            let b_text = vstd::slice::slice_subrange(other.source, b.span.start, b.span.end);
            proof {
                assert(self@[k as int].1 == a_text@);
                assert(other@[k as int].1 == b_text@);
            }
            if !bytes_eq(a_text, b_text) {
                proof {
                    assert(self@[k as int] != other@[k as int]);
                }
                return false;
            }
            proof {
                assert(self@[k as int] == other@[k as int]);
            }
            k += 1;
        }
        proof {
            assert(self@ =~= other@);
        }
        true
    }
}

/// Splitting a cursor at any admissible count and concatenating the two
/// resulting views' element sequences, in order, reproduces exactly the
/// original view's elements: `take_split` loses and reorders nothing.
pub proof fn lemma_take_split_concat<'i, 'b>(c: Input<'i, 'b>, count: int)
    requires
        0 <= count <= c@.len(),
    ensures
        c@.subrange(0, count) + c@.subrange(count, c@.len() as int) == c@,
{
    assert(c@.subrange(0, count) + c@.subrange(count, c@.len() as int) =~= c@);
}

/// Taking a prefix of a cursor's full length yields its exact element
/// sequence, so `take(c, length(c))` is content-equal to `c`.
pub proof fn lemma_take_all<'i, 'b>(c: Input<'i, 'b>)
    ensures
        c@.subrange(0, c@.len() as int) == c@,
{
    assert(c@.subrange(0, c@.len() as int) =~= c@);
}

/// Byte-for-byte equality of two slices.
fn bytes_eq(a: &[u8], b: &[u8]) -> (r: bool)
    ensures
        r == (a@ == b@),
{
    if a.len() != b.len() {
        return false;
    }
    let mut k: usize = 0;
    while k < a.len()
        invariant
            a@.len() == b@.len(),
            k <= a@.len(),
            forall|m: int| 0 <= m < k ==> a@[m] == b@[m],
        decreases a@.len() - k,
    {
        if *vstd::slice::slice_index_get(a, k) != *vstd::slice::slice_index_get(b, k) {
            return false;
        }
        k += 1;
    }
    proof {
        assert(a@ =~= b@);
    }
    true
}

} // verus!
