//! The answer to a completion request that was refused.

use crate::error::ProviderError;
use crate::laws::{reading_on_changes_no_cut, reading_on_changes_no_full_refusal};
use crate::sse::{decode_lossy, decode_reads, lossy_text, read_texts};
use crate::text::joined;
use vstd::prelude::*;
use vstd::string::*;
use vstd::utf8::{decode_utf8, encode_utf8, is_char_boundary, valid_utf8};

verus! {

/// The most bytes of a refusal's body that are kept.
pub const MAX_ERROR_BODY: usize = 4096;

/// Whether `text` is longer than what is kept of a refusal's body.
pub open spec fn too_long(text: Seq<char>) -> bool {
    encode_utf8(text).len() > MAX_ERROR_BODY
}

/// The bytes that are kept of a refusal's body.
pub open spec fn kept(text: Seq<char>) -> Seq<u8> {
    if too_long(text) {
        encode_utf8(text).subrange(0, MAX_ERROR_BODY as int)
    } else {
        encode_utf8(text)
    }
}

/// Whether what is kept of `text` ends between two characters.
pub open spec fn cut_is_clean(text: Seq<char>) -> bool {
    too_long(text) ==> is_char_boundary(encode_utf8(text), MAX_ERROR_BODY as int)
}

/// A refusal, as far as its body has been read.
pub struct Refusal {
    status: u16,
    body: String,
}

impl Refusal {
    /// No more than the limit is kept.
    #[verifier::type_invariant]
    spec fn within_limit(self) -> bool {
        !too_long(self.body@)
    }

    /// The status of the answer.
    pub closed spec fn status(&self) -> u16 {
        self.status
    }

    /// What is kept of the body.
    pub closed spec fn body(&self) -> Seq<char> {
        self.body@
    }

    /// The refusal that a status stands for, with nothing of its body read; `None`
    /// where the status lets the stream be read.
    pub fn for_status(status: u16) -> (refusal: Option<Refusal>)
        ensures
            match refusal {
                Some(refusal) => {
                    &&& status != 200
                    &&& refusal.status() == status
                    &&& refusal.body() == Seq::<char>::empty()
                },
                None => status == 200,
            },
    {
        if status == 200 {
            None
        } else {
            Some(Refusal { status, body: String::new() })
        }
    }

    /// Takes in the next text of the body. The result says whether the body is
    /// full: then it is cut, and no more is to be read.
    pub fn push_text(&mut self, text: &str) -> (full: bool)
        requires
            cut_is_clean(old(self).body() + text@),
        ensures
            final(self).status() == old(self).status(),
            full == too_long(old(self).body() + text@),
            encode_utf8(final(self).body()) == kept(old(self).body() + text@),
            !full ==> final(self).body() == old(self).body() + text@,
    {
        let whole: String = joined(self.body.as_str(), text);
        if whole.as_str().as_bytes().len() > MAX_ERROR_BODY {
            let cut: String = whole.as_str().split_at(MAX_ERROR_BODY).0.to_owned();
            self.body = cut;
            true
        } else {
            self.body = whole;
            false
        }
    }

    /// Takes in the next text of the body, as `push_text` does. Where the body
    /// would have to be cut inside a character, nothing is taken in and the result
    /// is `None`.
    fn push_clean(&mut self, text: &str) -> (full: Option<bool>)
        ensures
            final(self).status() == old(self).status(),
            ({
                let text = old(self).body() + text@;
                match full {
                    Some(full) => {
                        &&& cut_is_clean(text)
                        &&& full == too_long(text)
                        &&& encode_utf8(final(self).body()) == kept(text)
                        &&& !full ==> final(self).body() == text
                    },
                    None => {
                        &&& !cut_is_clean(text)
                        &&& final(self).body() == old(self).body()
                    },
                }
            }),
    {
        let whole: String = joined(self.body.as_str(), text);
        if whole.as_str().as_bytes().len() > MAX_ERROR_BODY && !whole.as_str().is_char_boundary(
            MAX_ERROR_BODY,
        ) {
            None
        } else {
            Some(self.push_text(text))
        }
    }

    /// Takes in the next bytes of the body, as `push_text` does their text. Where
    /// the body would have to be cut inside a character, nothing is taken in and
    /// the result is `None`.
    pub fn push_bytes(&mut self, bytes: &[u8]) -> (full: Option<bool>)
        ensures
            final(self).status() == old(self).status(),
            valid_utf8(bytes@) ==> lossy_text(bytes@) == decode_utf8(bytes@),
            ({
                let text = old(self).body() + lossy_text(bytes@);
                match full {
                    Some(full) => {
                        &&& cut_is_clean(text)
                        &&& full == too_long(text)
                        &&& encode_utf8(final(self).body()) == kept(text)
                        &&& !full ==> final(self).body() == text
                    },
                    None => {
                        &&& !cut_is_clean(text)
                        &&& final(self).body() == old(self).body()
                    },
                }
            }),
    {
        let text: String = decode_lossy(bytes);
        self.push_clean(text.as_str())
    }

    /// The error that the refusal amounts to.
    pub fn into_error(self) -> (error: ProviderError)
        ensures
            error matches ProviderError::Api { status, body } && status == self.status() && body@
                == self.body(),
    {
        ProviderError::Api { status: self.status, body: self.body }
    }

    /// The error that the refusal amounts to once the given reads are taken in, up
    /// to the one that fills the body: what is kept of the whole text, however it
    /// is cut into reads. `None` where the whole text would have to be cut inside a
    /// character.
    pub fn into_error_after(self, reads: &[Vec<u8>]) -> (error: Option<ProviderError>)
        ensures
            ({
                let text = self.body() + read_texts(reads@).flatten();
                match error {
                    Some(error) => {
                        &&& cut_is_clean(text)
                        &&& error matches ProviderError::Api { status, body }
                        &&& status == self.status()
                        &&& encode_utf8(body@) == kept(text)
                        &&& !too_long(text) ==> body@ == text
                    },
                    None => !cut_is_clean(text),
                }
            }),
            forall|i: int|
                0 <= i < reads@.len() && valid_utf8((#[trigger] reads@[i])@) ==> lossy_text(
                    reads@[i]@,
                ) == decode_utf8(reads@[i]@),
    {
        proof {
            use_type_invariant(&self);
        }
        let ghost texts = read_texts(reads@);
        let ghost whole = self.body() + texts.flatten();
        let decoded: Vec<String> = decode_reads(reads);
        let mut refusal: Refusal = self;
        let mut i: usize = 0;
        assert(texts.skip(0) == texts);
        while i < decoded.len()
            invariant
                i <= decoded@.len(),
                texts.len() == decoded@.len(),
                forall|j: int| 0 <= j < texts.len() ==> texts[j] == (#[trigger] decoded@[j])@,
                refusal.status() == self.status(),
                !too_long(refusal.body()),
                refusal.body() + texts.skip(i as int).flatten() == whole,
                whole == self.body() + read_texts(reads@).flatten(),
                forall|j: int|
                    0 <= j < reads@.len() && valid_utf8((#[trigger] reads@[j])@) ==> lossy_text(
                        reads@[j]@,
                    ) == decode_utf8(reads@[j]@),
            decreases decoded@.len() - i,
        {
            let ghost read = refusal.body() + decoded@[i as int]@;
            let ghost unread = texts.skip(i + 1).flatten();
            proof {
                let waiting = texts.skip(i as int);
                assert(waiting.drop_first() == texts.skip(i + 1));
                assert(waiting.flatten() == waiting[0] + unread);
                assert(read + unread == whole);
                reading_on_changes_no_cut(read, unread);
            }
            match refusal.push_clean(decoded[i].as_str()) {
                Some(true) => {
                    proof {
                        reading_on_changes_no_full_refusal(read, unread);
                    }
                    return Some(refusal.into_error());
                },
                Some(false) => {},
                None => {
                    return None;
                },
            }
            i = i + 1;
        }
        assert(texts.skip(i as int).flatten() == Seq::<char>::empty());
        assert(refusal.body() == whole);
        Some(refusal.into_error())
    }
}

} // verus!
