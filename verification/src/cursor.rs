//! The forward cursor that turns character positions into byte offsets.

use vstd::prelude::*;

use crate::text;

verus! {

/// A place in a text: so many characters in, so many bytes in.
pub struct Cursor {
    pub chars: nat,
    pub bytes: nat,
}

impl Cursor {
    /// The beginning of any text.
    pub open spec fn start() -> Cursor {
        Cursor { chars: 0, bytes: 0 }
    }

    /// The place `n` characters into `s`, or the end of `s` if that comes first.
    pub open spec fn at(s: Seq<char>, n: nat) -> Cursor {
        Cursor { chars: text::clamp(s, n), bytes: text::byte_offset(s, n) }
    }

    /// Whether this is a place in `s`.
    pub open spec fn fits(self, s: Seq<char>) -> bool {
        self == Cursor::at(s, self.chars)
    }

    /// Where the way to the `n`-th character begins: here, or at the start
    /// where `n` lies behind.
    pub open spec fn rewound(self, n: nat) -> Cursor {
        if n < self.chars {
            Cursor::start()
        } else {
            self
        }
    }

    /// Whether the way to the `n`-th character can be walked in `s`. It always
    /// can where the cursor is a place in `s`. A cursor left over from another
    /// text can still be moved where it need not read `s`, or stands on a
    /// character boundary of `s`.
    pub open spec fn can_seek(self, s: Seq<char>, n: nat) -> bool {
        ||| self.fits(s)
        ||| n <= self.rewound(n).chars
        ||| text::on_boundary(s, self.rewound(n).bytes)
    }

    /// The cursor after the way to the `n`-th character of `s`. From a place in
    /// `s` that is the place of the `n`-th character. A cursor left over from
    /// another text counts on from where its byte offset stands in `s`.
    pub open spec fn seek(self, s: Seq<char>, n: nat) -> Cursor {
        let from = self.rewound(n);
        if self.fits(s) {
            Cursor::at(s, n)
        } else if n <= from.chars {
            from
        } else {
            let first = text::chars_before(s, from.bytes);
            let left = (s.len() - first) as nat;
            let steps = if n - from.chars <= left {
                (n - from.chars) as nat
            } else {
                left
            };
            Cursor { chars: from.chars + steps, bytes: text::byte_offset(s, first + steps) }
        }
    }
}

} // verus!
