//! Which texts name a Rust identifier, as `proc_macro2::Ident::new` (and
//! `quote::format_ident!`, which strips a leading `r#` and asks for a raw
//! identifier) accept them.

use vstd::prelude::*;

verus! {

/// Whether `c` has the Unicode `XID_Start` property (`unicode_ident`).
pub uninterp spec fn xid_start(c: char) -> bool;

/// Whether `c` has the Unicode `XID_Continue` property (`unicode_ident`).
pub uninterp spec fn xid_continue(c: char) -> bool;

/// `unicode_ident::is_xid_start`: a table lookup on `c` alone.
#[verifier::external_body]
fn is_xid_start(c: char) -> (res: bool)
    ensures
        res == xid_start(c),
{
    unicode_ident::is_xid_start(c)
}

/// `unicode_ident::is_xid_continue`: a table lookup on `c` alone.
#[verifier::external_body]
fn is_xid_continue(c: char) -> (res: bool)
    ensures
        res == xid_continue(c),
{
    unicode_ident::is_xid_continue(c)
}

/// Whether `c` is an ASCII digit.
pub open spec fn is_ascii_digit(c: char) -> bool {
    0x30 <= (c as u32) <= 0x39
}

/// Whether `s` is an identifier: not empty, not all digits, starting with
/// `_` or an `XID_Start` character and going on with `XID_Continue`
/// characters.
pub open spec fn is_ident(s: Seq<char>) -> bool {
    &&& s.len() > 0
    &&& !(forall|i: int| 0 <= i < s.len() ==> is_ascii_digit(#[trigger] s[i]))
    &&& (s[0] == '_' || xid_start(s[0]))
    &&& forall|i: int| 1 <= i < s.len() ==> xid_continue(#[trigger] s[i])
}

/// Whether `format_ident!` makes an identifier of `s` without panicking:
/// after `r#`, a raw identifier other than `_`, `super`, `self`, `Self` and
/// `crate`; otherwise an identifier.
pub open spec fn ident_ok(s: Seq<char>) -> bool {
    if s.len() >= 2 && s[0] == 'r' && s[1] == '#' {
        let r = s.skip(2);
        &&& is_ident(r)
        &&& r != "_"@
        &&& r != "super"@
        &&& r != "self"@
        &&& r != "Self"@
        &&& r != "crate"@
    } else {
        is_ident(s)
    }
}

/// Decides `is_ident`.
pub fn identifier(s: &str) -> (res: bool)
    ensures
        res == is_ident(s@),
{
    let n = s.unicode_len();
    if n == 0 {
        return false;
    }
    let first = s.get_char(0);
    if !(first == '_' || is_xid_start(first)) {
        return false;
    }
    let mut all_digits = true;
    let mut i: usize = 0;
    while i < n
        invariant
            n == s@.len(),
            n > 0,
            i <= n,
            all_digits == (forall|k: int| 0 <= k < i ==> is_ascii_digit(#[trigger] s@[k])),
            forall|k: int| 1 <= k < i ==> xid_continue(#[trigger] s@[k]),
        decreases n - i,
    {
        let c = s.get_char(i);
        let u = c as u32;
        if !(0x30 <= u && u <= 0x39) {
            all_digits = false;
        }
        if i >= 1 && !is_xid_continue(c) {
            assert(!xid_continue(s@[i as int]));
            return false;
        }
        i = i + 1;
    }
    !all_digits
}

/// Decides `ident_ok`.
pub fn ident_text_ok(s: &str) -> (res: bool)
    ensures
        res == ident_ok(s@),
{
    let n = s.unicode_len();
    if n >= 2 && s.get_char(0) == 'r' && s.get_char(1) == '#' {
        let raw = s.substring_char(2, n);
        assert(raw@ =~= s@.skip(2));
        if !identifier(raw) {
            return false;
        }
        let r = String::from_str(raw);
        r != String::from_str("_") && r != String::from_str("super") && r != String::from_str("self")
            && r != String::from_str("Self") && r != String::from_str("crate")
    } else {
        identifier(s)
    }
}

} // verus!
