//! SQL text as SQLite takes it: no text with a NUL in it.

use vstd::prelude::*;

use crate::numbers;
use crate::text;

verus! {

broadcast use vstd::string::group_string_axioms;

/// The refusal of text that holds a NUL, which would end it early; it names the
/// first one's place, in bytes.
pub open spec fn nul_refusal(sql: Seq<char>) -> Option<Seq<char>> {
    match sql.index_of_first('\0') {
        Some(i) => Some(
            "nul byte found in provided data at position: "@ + numbers::decimal_text(
                (text::byte_len(sql.take(i)) as usize) as nat,
            ),
        ),
        None => None,
    }
}

/// Refuse text that holds a NUL.
pub fn without_nul(sql: &str) -> (result: Result<(), String>)
    ensures
        match result {
            Ok(()) => nul_refusal(sql@) is None,
            Err(error) => nul_refusal(sql@) == Some(error@),
        },
{
    let chars = text::chars_of(sql);
    proof {
        sql@.index_of_first_ensures('\0');
    }
    match text::find_char(&chars, '\0') {
        None => {
            assert(!sql@.contains('\0'));
            Ok(())
        },
        Some(i) => {
            assert(sql@.contains(sql@[i as int]));
            assert(sql@.index_of_first('\0') == Some(i as int));
            let head = text::string_of(&text::cut(&chars, 0, i));
            assert(head@ =~= sql@.take(i as int));
            let length: usize = head.as_str().len();
            let at = numbers::decimal(length as u64);
            Err(text::concat("nul byte found in provided data at position: ", at.as_str()))
        },
    }
}

/// SQL text with a NUL is refused, with the place of the first one in bytes; text without one
/// is not.
pub proof fn law_nul_is_refused(head: Seq<char>, tail: Seq<char>)
    requires
        !head.contains('\0'),
        text::byte_len(head) <= usize::MAX,
    ensures
        nul_refusal(head) is None,
        nul_refusal(head + seq!['\0'] + tail) == Some(
            "nul byte found in provided data at position: "@ + numbers::decimal_text(
                text::byte_len(head),
            ),
        ),
{
    let all = head + seq!['\0'] + tail;
    let n = head.len() as int;
    head.index_of_first_ensures('\0');
    all.index_of_first_ensures('\0');
    assert(all[n] == '\0');
    assert(all.contains('\0'));
    assert forall|k: int| 0 <= k < n implies all[k] != '\0' by {
        assert(all[k] == head[k]);
    }
    assert(all.take(n) =~= head);
    assert((text::byte_len(head) as usize) as nat == text::byte_len(head));
}

} // verus!
