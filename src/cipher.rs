use vstd::prelude::*;

verus! {

/// Number of letters in the alphabet that the ciphers rotate over.
pub const ALPHABET_LEN: usize = 26;

/// The fixed shift of ROT13.
pub const ROT13_SHIFT: usize = 13;

/// Largest shift that `caesar` accepts.
pub const MAX_SHIFT: usize = 25;

pub open spec fn is_lower(c: char) -> bool {
    'a' <= c && c <= 'z'
}

pub open spec fn is_upper(c: char) -> bool {
    'A' <= c && c <= 'Z'
}

pub open spec fn is_letter(c: char) -> bool {
    is_lower(c) || is_upper(c)
}

/// The 26 lowercase ASCII letters, in alphabetical order.
pub open spec fn lowercase_alphabet() -> Seq<char> {
    Seq::new(26, |i: int| (('a' as int + i) as u32) as char)
}

/// Moves the letter `c` forward by `shift` places among the 26 letters that
/// start at `first`, wrapping around after the last one.
pub open spec fn rotate_from(c: char, first: char, shift: nat) -> char {
    ((first as int + (c as int - first as int + shift) % 26) as u32) as char
}

/// A letter rotated forward by `shift` within its own case; any other
/// character is left as it is.
pub open spec fn rotate_char(c: char, shift: nat) -> char {
    if is_lower(c) {
        rotate_from(c, 'a', shift)
    } else if is_upper(c) {
        rotate_from(c, 'A', shift)
    } else {
        c
    }
}

/// The Caesar cipher with the given shift, applied character by character.
pub open spec fn caesar_text(t: Seq<char>, shift: nat) -> Seq<char> {
    t.map_values(|c: char| rotate_char(c, shift))
}

/// Rotating a character keeps its case, and leaves a non-letter as it is.
proof fn lemma_rotate_char_case(c: char, shift: nat)
    ensures
        is_lower(rotate_char(c, shift)) <==> is_lower(c),
        is_upper(rotate_char(c, shift)) <==> is_upper(c),
        !is_letter(c) ==> rotate_char(c, shift) == c,
{
}

/// The cipher keeps the length, the case of each letter, and every
/// character that is not a letter; a shift of zero changes nothing.
pub proof fn lemma_caesar_text_shape(t: Seq<char>, shift: nat)
    ensures
        caesar_text(t, shift).len() == t.len(),
        forall|i: int|
            0 <= i < t.len() ==> (is_lower(#[trigger] caesar_text(t, shift)[i]) <==> is_lower(t[i]))
                && (is_upper(caesar_text(t, shift)[i]) <==> is_upper(t[i])),
        forall|i: int|
            0 <= i < t.len() && !is_letter(#[trigger] t[i]) ==> caesar_text(t, shift)[i] == t[i],
        shift == 0 ==> caesar_text(t, shift) == t,
{
    assert forall|i: int| 0 <= i < t.len() implies (is_lower(#[trigger] caesar_text(t, shift)[i])
        <==> is_lower(t[i])) && (is_upper(caesar_text(t, shift)[i]) <==> is_upper(t[i])) by {
        lemma_rotate_char_case(t[i], shift);
    }
    if shift == 0 {
        assert(caesar_text(t, shift) =~= t);
    }
}

/// Applying ROT13 twice gives back the original text.
pub proof fn lemma_rot13_involution(t: Seq<char>)
    ensures
        caesar_text(caesar_text(t, ROT13_SHIFT as nat), ROT13_SHIFT as nat) == t,
{
    assert(caesar_text(caesar_text(t, ROT13_SHIFT as nat), ROT13_SHIFT as nat) =~= t);
}

/// Relies on String::push: the character is appended at the end.
pub assume_specification[ String::push ](s: &mut String, ch: char)
    ensures
        final(s)@ == old(s)@.push(ch),
;

/// Why a translation failed.
#[derive(Debug, Clone, Copy, PartialEq, Eq, Structural)]
pub enum CipherError {
    /// The shift lies outside `0..=25`.
    InvalidShift,
    /// A letter was not found in the alphabet; never happens with a
    /// well-formed translator.
    UnexpectedCharacter(char),
}

/// Holds the alphabet that the ciphers rotate over.
pub struct Translator {
    alphabet: Vec<char>,
}

impl View for Translator {
    type V = Seq<char>;

    closed spec fn view(&self) -> Seq<char> {
        self.alphabet@
    }
}

impl Translator {
    #[verifier::type_invariant]
    spec fn inv(&self) -> bool {
        self.alphabet@ == lowercase_alphabet()
    }

    /// Builds the lowercase alphabet `a..=z`.
    pub fn new() -> (t: Translator)
        ensures
            t@ == lowercase_alphabet(),
    {
        let mut alphabet: Vec<char> = Vec::new();
        let mut i: u8 = 0;
        while i < 26
            invariant
                i <= 26,
                alphabet@ == lowercase_alphabet().take(i as int),
            decreases 26 - i,
        {
            alphabet.push((('a' as u8) + i) as char);
            i = i + 1;
            assert(alphabet@ =~= lowercase_alphabet().take(i as int));
        }
        assert(alphabet@ =~= lowercase_alphabet());
        Translator { alphabet }
    }

    /// The first position of `needle` in the alphabet, if it occurs there.
    fn position(&self, needle: char) -> (r: Option<usize>)
        ensures
            match r {
                Some(i) => i < self@.len() && self@[i as int] == needle && forall|j: int|
                    0 <= j < i ==> self@[j] != needle,
                None => forall|j: int| 0 <= j < self@.len() ==> self@[j] != needle,
            },
    {
        let mut i: usize = 0;
        while i < self.alphabet.len()
            invariant
                i <= self@.len(),
                self@ == self.alphabet@,
                forall|j: int| 0 <= j < i ==> self@[j] != needle,
            decreases self@.len() - i,
        {
            if self.alphabet[i] == needle {
                return Some(i);
            }
            i = i + 1;
        }
        None
    }

    /// Rotates one letter forward by `shift` within its case.
    fn rotate_letter(&self, c: char, shift: usize) -> (r: Result<char, CipherError>)
        requires
            is_letter(c),
            shift <= MAX_SHIFT,
        ensures
            r == Ok::<char, CipherError>(rotate_char(c, shift as nat)),
    {
        proof {
            use_type_invariant(self);
        }
        let is_uppercase = 'A' <= c && c <= 'Z';
        let needle = if is_uppercase {
            ((c as u8) + (('a' as u8) - ('A' as u8))) as char
        } else {
            c
        };
        match self.position(needle) {
            Some(index) => {
                let rotation = (index + shift) % ALPHABET_LEN;
                let new_letter = self.alphabet[rotation];
                if is_uppercase {
                    Ok(((new_letter as u8) - (('a' as u8) - ('A' as u8))) as char)
                } else {
                    Ok(new_letter)
                }
            },
            None => {
                assert(self@[needle as int - 'a' as int] == needle);
                Err(CipherError::UnexpectedCharacter(c))
            },
        }
    }

    /// Encodes or decodes `plaintext` with ROT13, the Caesar cipher of
    /// shift 13, which is its own inverse.
    pub fn rot13(&self, plaintext: &String) -> (r: Result<String, CipherError>)
        ensures
            r is Ok,
            r->Ok_0@ == caesar_text(plaintext@, ROT13_SHIFT as nat),
    {
        self.caesar(plaintext, ROT13_SHIFT)
    }

    /// Encodes `plaintext` with the Caesar cipher of the given shift: each
    /// ASCII letter moves `shift` places forward within its case, wrapping
    /// from `z` to `a`; every other character is copied unchanged. A shift
    /// above 25 is rejected before any output is produced.
    pub fn caesar(&self, plaintext: &String, shift: usize) -> (r: Result<String, CipherError>)
        ensures
            match r {
                Ok(out) => shift <= MAX_SHIFT && out@ == caesar_text(plaintext@, shift as nat),
                Err(e) => shift > MAX_SHIFT && e == CipherError::InvalidShift,
            },
            shift <= MAX_SHIFT ==> r is Ok,
            r is Ok ==> r->Ok_0@.len() == plaintext@.len(),
            r is Ok ==> forall|i: int|
                0 <= i < plaintext@.len() ==> (is_lower(#[trigger] r->Ok_0@[i]) <==> is_lower(
                    plaintext@[i],
                )) && (is_upper(r->Ok_0@[i]) <==> is_upper(plaintext@[i])),
            r is Ok ==> forall|i: int|
                0 <= i < plaintext@.len() && !is_letter(#[trigger] plaintext@[i]) ==> r->Ok_0@[i]
                    == plaintext@[i],
            shift == 0 ==> r is Ok && r->Ok_0@ == plaintext@,
    {
        if shift > MAX_SHIFT {
            return Err(CipherError::InvalidShift);
        }
        let ghost text = plaintext@;
        let mut translated = String::new();
        for c in it: plaintext.chars()
            invariant
                shift <= MAX_SHIFT,
                it.seq() == text,
                translated@ == caesar_text(text.take(it.index() as int), shift as nat),
        {
            let ghost done = text.take(it.index() as int);
            if 'A' <= c && c <= 'Z' || 'a' <= c && c <= 'z' {
                match self.rotate_letter(c, shift) {
                    Ok(letter) => translated.push(letter),
                    Err(e) => return Err(e),
                }
            } else {
                translated.push(c);
            }
            assert(text.take(it.index() + 1) =~= done.push(c));
            assert(caesar_text(done.push(c), shift as nat) =~= caesar_text(done, shift as nat).push(
                rotate_char(c, shift as nat),
            ));
        }
        assert(text.take(text.len() as int) =~= text);
        proof {
            lemma_caesar_text_shape(text, shift as nat);
        }
        Ok(translated)
    }
}


/// Encodes or decodes `plaintext` with ROT13, using a fresh translator.
pub fn rot13(plaintext: &String) -> (r: Result<String, CipherError>)
    ensures
        r is Ok,
        r->Ok_0@ == caesar_text(plaintext@, ROT13_SHIFT as nat),
{
    Translator::new().rot13(plaintext)
}

/// Encodes `plaintext` with the Caesar cipher of the given shift, using a
/// fresh translator; a shift above 25 is rejected.
pub fn caesar(plaintext: &String, shift: usize) -> (r: Result<String, CipherError>)
    ensures
        match r {
            Ok(out) => shift <= MAX_SHIFT && out@ == caesar_text(plaintext@, shift as nat),
            Err(e) => shift > MAX_SHIFT && e == CipherError::InvalidShift,
        },
        shift <= MAX_SHIFT ==> r is Ok,
        r is Ok ==> r->Ok_0@.len() == plaintext@.len(),
        r is Ok ==> forall|i: int|
            0 <= i < plaintext@.len() ==> (is_lower(#[trigger] r->Ok_0@[i]) <==> is_lower(
                plaintext@[i],
            )) && (is_upper(r->Ok_0@[i]) <==> is_upper(plaintext@[i])),
        r is Ok ==> forall|i: int|
            0 <= i < plaintext@.len() && !is_letter(#[trigger] plaintext@[i]) ==> r->Ok_0@[i]
                == plaintext@[i],
        shift == 0 ==> r is Ok && r->Ok_0@ == plaintext@,
{
    Translator::new().caesar(plaintext, shift)
}

} // verus!
