use vstd::prelude::*;
use crate::text::{
    byte_at, char_index_of, chars_of, is_boundary, lemma_byte_at_bound, lemma_byte_at_step,
    lemma_byte_at_strict, lemma_char_index_of, lemma_utf8_len_concat, lemma_utf8_len_encode,
    string_of, utf8_char_len, utf8_len,
};

verus! {

/// `t` with the characters `[a, b)` taken out.
pub open spec fn removed(t: Seq<char>, a: int, b: int) -> Seq<char> {
    t.take(a) + t.skip(b)
}

/// `t` with `s` put in before the character at index `k`.
pub open spec fn inserted(t: Seq<char>, k: int, s: Seq<char>) -> Seq<char> {
    t.take(k) + s + t.skip(k)
}

/// Taking out a range and putting the same characters back where it started gives the
/// text back.
pub proof fn lemma_remove_then_reinsert(t: Seq<char>, a: int, b: int)
    requires
        0 <= a <= b <= t.len(),
    ensures
        inserted(removed(t, a, b), a, t.subrange(a, b)) == t,
{
    let r = removed(t, a, b);
    assert(r.take(a) =~= t.take(a));
    assert(r.skip(a) =~= t.skip(b));
    assert(t.take(a) + t.subrange(a, b) + t.skip(b) =~= t);
}

/// The editable text: a sequence of characters, addressed by byte offsets at character
/// boundaries (or by character index), whose UTF-8 length fits in `usize`.
pub struct TextBuffer {
    chars: Vec<char>,
}

impl View for TextBuffer {
    type V = Seq<char>;

    closed spec fn view(&self) -> Seq<char> {
        self.chars@
    }
}

impl TextBuffer {
    /// The UTF-8 length of the text fits in `usize`.
    pub open spec fn wf(&self) -> bool {
        utf8_len(self@) <= usize::MAX
    }

    /// An empty buffer.
    pub fn new() -> (r: TextBuffer)
        ensures
            r@ == Seq::<char>::empty(),
            r.wf(),
    {
        TextBuffer { chars: Vec::new() }
    }

    /// A buffer holding the characters of `s`.
    pub fn from_text(s: &str) -> (r: TextBuffer)
        ensures
            r@ == s@,
            r.wf(),
    {
        let bytes = s.as_bytes();
        let _n = bytes.len();
        proof {
            lemma_utf8_len_encode(s@);
        }
        TextBuffer { chars: chars_of(s) }
    }

    /// The characters, in order.
    pub fn chars(&self) -> (r: &[char])
        ensures
            r@ == self@,
    {
        self.chars.as_slice()
    }

    /// Number of characters.
    pub fn char_count(&self) -> (r: usize)
        ensures
            r == self@.len(),
    {
        self.chars.len()
    }

    /// The character at index `k`.
    pub fn char_at(&self, k: usize) -> (r: char)
        requires
            k < self@.len(),
        ensures
            r == self@[k as int],
    {
        self.chars[k]
    }

    /// Byte offset of the character at index `k` (of the end, for `k == char_count()`).
    pub fn byte_offset(&self, k: usize) -> (r: usize)
        requires
            self.wf(),
            k <= self@.len(),
        ensures
            r == byte_at(self@, k as int),
    {
        let mut i: usize = 0;
        let mut b: usize = 0;
        while i < k
            invariant
                i <= k <= self@.len(),
                utf8_len(self@) <= usize::MAX,
                b == byte_at(self@, i as int),
            decreases k - i,
        {
            proof {
                lemma_byte_at_step(self@, i as int);
                lemma_byte_at_bound(self@, i + 1);
            }
            b = b + utf8_char_len(self.chars[i]);
            i = i + 1;
        }
        b
    }

    /// Length of the text in bytes.
    pub fn len(&self) -> (r: usize)
        requires
            self.wf(),
        ensures
            r == utf8_len(self@),
    {
        proof {
            assert(self@.take(self@.len() as int) =~= self@);
        }
        self.byte_offset(self.chars.len())
    }

    /// Character index of the boundary at byte offset `pos`.
    pub fn char_index(&self, pos: usize) -> (r: usize)
        requires
            is_boundary(self@, pos as int),
        ensures
            r <= self@.len(),
            byte_at(self@, r as int) == pos,
            r == char_index_of(self@, pos as int),
    {
        let ghost target = char_index_of(self@, pos as int);
        let n = self.chars.len();
        let mut i: usize = 0;
        let mut b: usize = 0;
        while b < pos
            invariant
                0 <= target <= self@.len(),
                n == self@.len(),
                byte_at(self@, target) == pos,
                i <= target,
                b == byte_at(self@, i as int),
                b <= pos,
            decreases pos - b,
        {
            proof {
                assert(i < target);
                lemma_byte_at_step(self@, i as int);
                if i + 1 < target {
                    lemma_byte_at_strict(self@, i + 1, target);
                }
            }
            b = b + utf8_char_len(self.chars[i]);
            i = i + 1;
        }
        proof {
            if (i as int) < target {
                lemma_byte_at_strict(self@, i as int, target);
            }
            lemma_char_index_of(self@, i as int);
        }
        i
    }

    /// The text as a `String`.
    pub fn contents(&self) -> (r: String)
        ensures
            r@ == self@,
    {
        string_of(self.chars.as_slice())
    }

    /// Puts `s` in before the character at index `k`.
    pub fn insert_chars_at(&mut self, k: usize, s: &[char])
        requires
            k <= old(self)@.len(),
            utf8_len(old(self)@) + utf8_len(s@) <= usize::MAX,
        ensures
            final(self)@ == inserted(old(self)@, k as int, s@),
            utf8_len(final(self)@) == utf8_len(old(self)@) + utf8_len(s@),
            final(self).wf(),
    {
        let ghost t = self@;
        let mut tail = self.chars.split_off(k);
        let mut i: usize = 0;
        while i < s.len()
            invariant
                i <= s@.len(),
                self.chars@ == t.take(k as int) + s@.take(i as int),
            decreases s@.len() - i,
        {
            self.chars.push(s[i]);
            i = i + 1;
            proof {
                assert(self.chars@ =~= t.take(k as int) + s@.take(i as int));
            }
        }
        self.chars.append(&mut tail);
        proof {
            assert(s@.take(s@.len() as int) =~= s@);
            assert(t.subrange(k as int, t.len() as int) =~= t.skip(k as int));
            assert(self@ =~= inserted(t, k as int, s@));
            lemma_utf8_len_concat(t.take(k as int), s@);
            lemma_utf8_len_concat(t.take(k as int) + s@, t.skip(k as int));
            lemma_utf8_len_concat(t.take(k as int), t.skip(k as int));
            assert(t.take(k as int) + t.skip(k as int) =~= t);
        }
    }

    /// Takes out the characters `[a, b)`.
    pub fn remove_chars(&mut self, a: usize, b: usize)
        requires
            a <= b <= old(self)@.len(),
            old(self).wf(),
        ensures
            final(self)@ == removed(old(self)@, a as int, b as int),
            utf8_len(final(self)@) <= utf8_len(old(self)@),
            final(self).wf(),
    {
        let ghost t = self@;
        let mut tail = self.chars.split_off(b);
        self.chars.truncate(a);
        self.chars.append(&mut tail);
        proof {
            assert(self@ =~= removed(t, a as int, b as int));
            lemma_utf8_len_concat(t.take(a as int), t.skip(b as int));
            lemma_utf8_len_concat(t.take(a as int), t.subrange(a as int, b as int));
            lemma_utf8_len_concat(t.take(b as int), t.skip(b as int));
            assert(t.take(a as int) + t.subrange(a as int, b as int) =~= t.take(b as int));
            assert(t.take(b as int) + t.skip(b as int) =~= t);
        }
    }

    /// Inserts `c` at the byte offset `pos`.
    pub fn insert_char(&mut self, pos: usize, c: char)
        requires
            is_boundary(old(self)@, pos as int),
            utf8_len(old(self)@) + 4 <= usize::MAX,
        ensures
            final(self)@ == inserted(old(self)@, char_index_of(old(self)@, pos as int), seq![c]),
            final(self).wf(),
    {
        let k = self.char_index(pos);
        let one = [c];
        proof {
            assert(one@ =~= seq![c]);
            assert(one@.drop_last() =~= Seq::<char>::empty());
            assert(utf8_len(one@.drop_last()) == 0);
            assert(utf8_len(one@) <= 4);
        }
        self.insert_chars_at(k, &one);
        proof {
            assert(one@ =~= seq![c]);
        }
    }

    /// Inserts the text `s` at the byte offset `pos`.
    pub fn insert_str(&mut self, pos: usize, s: &str)
        requires
            is_boundary(old(self)@, pos as int),
            utf8_len(old(self)@) + utf8_len(s@) <= usize::MAX,
        ensures
            final(self)@ == inserted(old(self)@, char_index_of(old(self)@, pos as int), s@),
            final(self).wf(),
    {
        let k = self.char_index(pos);
        let v = chars_of(s);
        self.insert_chars_at(k, v.as_slice());
    }

    /// Deletes the bytes `[start, end)`, both character boundaries.
    pub fn delete_range(&mut self, start: usize, end: usize)
        requires
            old(self).wf(),
            is_boundary(old(self)@, start as int),
            is_boundary(old(self)@, end as int),
            start <= end,
        ensures
            final(self)@ == removed(
                old(self)@,
                char_index_of(old(self)@, start as int),
                char_index_of(old(self)@, end as int),
            ),
            final(self).wf(),
    {
        let a = self.char_index(start);
        let b = self.char_index(end);
        if b < a {
            proof {
                lemma_byte_at_strict(self@, b as int, a as int);
            }
        }
        self.remove_chars(a, b);
    }

    /// Empties the buffer.
    pub fn clear(&mut self)
        ensures
            final(self)@ == Seq::<char>::empty(),
            final(self).wf(),
    {
        self.chars.clear();
    }
}

} // verus!
