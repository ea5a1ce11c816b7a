//! The sixty-four symbols of the standard alphabet and the padding character.

use vstd::prelude::*;

verus! {

/// The padding character that fills the last group of four.
pub const PAD: char = '=';

/// The symbols in the order of the values they stand for.
pub open spec fn alphabet() -> Seq<char> {
    "ABCDEFGHIJKLMNOPQRSTUVWXYZabcdefghijklmnopqrstuvwxyz0123456789+/"@
}

/// The symbol that stands for the six-bit value `value`.
pub open spec fn symbol(value: int) -> char
    recommends
        0 <= value < 64,
{
    alphabet()[value]
}

/// Whether `c` is one of the sixty-four symbols.
pub open spec fn is_symbol(c: char) -> bool {
    exists|value: int| 0 <= value < 64 && #[trigger] symbol(value) == c
}

/// The six-bit value that `c` stands for, and -1 where `c` is no symbol.
pub open spec fn symbol_value(c: char) -> int {
    if 'A' <= c <= 'Z' {
        c as int - 'A' as int
    } else if 'a' <= c <= 'z' {
        c as int - 'a' as int + 26
    } else if '0' <= c <= '9' {
        c as int - '0' as int + 52
    } else if c == '+' {
        62
    } else if c == '/' {
        63
    } else {
        -1
    }
}

/// `symbol_value` reads every symbol back to the value it stands for.
pub proof fn lemma_symbol_value(value: int)
    requires
        0 <= value < 64,
    ensures
        symbol_value(symbol(value)) == value,
{
    reveal_strlit("ABCDEFGHIJKLMNOPQRSTUVWXYZabcdefghijklmnopqrstuvwxyz0123456789+/");
}

/// The symbols are the letters, the digits, `+` and `/`: the characters to which `symbol_value`
/// gives a value.
pub proof fn lemma_is_symbol(c: char)
    ensures
        is_symbol(c) <==> 0 <= symbol_value(c),
        is_symbol(c) ==> c != PAD && c <= '\u{7f}',
        is_symbol(c) ==> 0 <= symbol_value(c) < 64 && symbol(symbol_value(c)) == c,
{
    if is_symbol(c) {
        let value = choose|value: int| 0 <= value < 64 && #[trigger] symbol(value) == c;
        lemma_symbol_value(value);
    }
    if 0 <= symbol_value(c) {
        reveal_strlit("ABCDEFGHIJKLMNOPQRSTUVWXYZabcdefghijklmnopqrstuvwxyz0123456789+/");
        assert(symbol(symbol_value(c)) == c);
    }
}

} // verus!
