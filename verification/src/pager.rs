//! The pagination state machine of the plain view.
//!
//! The interactive loop itself blocks on console input, so it lives outside
//! this crate; the decisions it takes are here.  After every row the pager
//! either keeps rendering or pauses for confirmation; on a confirmation
//! response it resumes only for a case-insensitive "y" or "yes", anything
//! else ends the session normally.
use vstd::prelude::*;
use vstd::slice::slice_index_get;

verus! {

/// Where the interactive session stands: showing rows, waiting at a
/// confirmation prompt, or ended by the reader.
#[derive(Clone, Copy, Debug, PartialEq, Eq, Structural)]
pub enum PagerState {
    Rendering,
    AwaitingContinue,
    Stopped,
}

/// A pause is due after row `i` (0-based) when pagination is on and a whole
/// number of full pages has just been shown: the `i + 1` rows shown so far
/// are a positive multiple of `height`, so a prompt follows every
/// `height`-th row.
pub open spec fn pause_after_row(i: int, height: int, no_limit: bool) -> bool {
    !no_limit && (i + 1) % height == 0
}

/// The pager's state after row `i` has been shown.
pub fn pager_after_row(i: usize, height: u16, no_limit: bool) -> (r: PagerState)
    requires
        height >= 1,
    ensures
        r == (if pause_after_row(i as int, height as int, no_limit) {
            PagerState::AwaitingContinue
        } else {
            PagerState::Rendering
        }),
{
    let h = height as usize;
    // `i % h == h - 1` says the same as `(i + 1) % h == 0` without risking
    // overflow on `i + 1`
    let last_of_page = i % h == h - 1;
    proof {
        let ii = i as int;
        let hh = height as int;
        vstd::arithmetic::div_mod::lemma_add_mod_noop(ii, 1, hh);
        vstd::arithmetic::div_mod::lemma_mod_bound(ii, hh);
        if hh == 1 {
            vstd::arithmetic::div_mod::lemma_small_mod(0nat, 1nat);
        } else {
            vstd::arithmetic::div_mod::lemma_small_mod(1nat, hh as nat);
            if ii % hh == hh - 1 {
                vstd::arithmetic::div_mod::lemma_mod_self_0(hh);
            } else {
                vstd::arithmetic::div_mod::lemma_small_mod((ii % hh + 1) as nat, hh as nat);
            }
        }
        assert((ii + 1) % hh == 0 <==> ii % hh == hh - 1);
    }
    if !no_limit && last_of_page {
        PagerState::AwaitingContinue
    } else {
        PagerState::Rendering
    }
}

/// `b` is an ASCII whitespace character.
pub open spec fn is_ascii_ws(b: u8) -> bool {
    b == 0x20 || b == 0x09 || b == 0x0a || b == 0x0b || b == 0x0c || b == 0x0d
}

/// `s` without its leading ASCII whitespace.
pub open spec fn trim_front(s: Seq<u8>) -> Seq<u8>
    decreases s.len(),
{
    if s.len() > 0 && is_ascii_ws(s[0]) {
        trim_front(s.drop_first())
    } else {
        s
    }
}

/// `s` without its trailing ASCII whitespace.
pub open spec fn trim_back(s: Seq<u8>) -> Seq<u8>
    decreases s.len(),
{
    if s.len() > 0 && is_ascii_ws(s.last()) {
        trim_back(s.drop_last())
    } else {
        s
    }
}

/// `b` folded to lowercase when it is an ASCII capital letter.
pub open spec fn ascii_lower(b: u8) -> u8 {
    if 0x41 <= b && b <= 0x5a {
        (b + 0x20) as u8
    } else {
        b
    }
}

/// The response, trimmed of ASCII whitespace and folded to lowercase.
pub open spec fn trimmed_lower(s: Seq<u8>) -> Seq<u8> {
    trim_back(trim_front(s)).map_values(|b: u8| ascii_lower(b))
}

/// The reader asked to continue: the trimmed, lowercased response is "y" or
/// "yes".
pub open spec fn wants_continue(s: Seq<u8>) -> bool {
    trimmed_lower(s) == seq![0x79u8] || trimmed_lower(s) == seq![0x79u8, 0x65u8, 0x73u8]
}

proof fn lemma_trim_front_range(s: Seq<u8>, a: int)
    requires
        0 <= a <= s.len(),
        forall|k: int| 0 <= k < a ==> is_ascii_ws(s[k]),
        a < s.len() ==> !is_ascii_ws(s[a]),
    ensures
        trim_front(s) =~= s.subrange(a, s.len() as int),
    decreases a,
{
    if a == 0 {
        assert(trim_front(s) =~= s.subrange(0, s.len() as int));
    } else {
        let sub = s.subrange(1, s.len() as int);
        assert(s.drop_first() =~= sub);
        lemma_trim_front_range(sub, a - 1);
        assert(sub.subrange(a - 1, sub.len() as int) =~= s.subrange(a, s.len() as int));
    }
}

proof fn lemma_trim_back_range(s: Seq<u8>, b: int)
    requires
        0 <= b <= s.len(),
        forall|k: int| b <= k < s.len() ==> is_ascii_ws(s[k]),
        b > 0 ==> !is_ascii_ws(s[b - 1]),
    ensures
        trim_back(s) =~= s.subrange(0, b),
    decreases s.len(),
{
    if b < s.len() {
        let sub = s.subrange(0, s.len() - 1);
        assert(s.drop_last() =~= sub);
        lemma_trim_back_range(sub, b);
        assert(sub.subrange(0, b) =~= s.subrange(0, b));
    } else {
        assert(trim_back(s) =~= s.subrange(0, b));
    }
}

fn is_ws_char(b: u8) -> (r: bool)
    ensures
        r == is_ascii_ws(b),
{
    b == 0x20 || b == 0x09 || b == 0x0a || b == 0x0b || b == 0x0c || b == 0x0d
}

fn lower_char(b: u8) -> (r: u8)
    ensures
        r == ascii_lower(b),
{
    if 0x41 <= b && b <= 0x5a {
        b + 0x20
    } else {
        b
    }
}

/// Whether a confirmation response asks to continue: exactly the responses
/// whose trimmed, lowercased text is "y" or "yes".
pub fn continue_from_response(response: &[u8]) -> (r: bool)
    ensures
        r == wants_continue(response@),
{
    let n = response.len();
    let mut a: usize = 0;
    loop
        invariant
            n == response@.len(),
            a <= n,
            forall|k: int| 0 <= k < a ==> is_ascii_ws(response@[k]),
        ensures
            a <= n,
            forall|k: int| 0 <= k < a ==> is_ascii_ws(response@[k]),
            a < n ==> !is_ascii_ws(response@[a as int]),
        decreases n - a,
    {
        if a >= n {
            break ;
        }
        let c = *slice_index_get(response, a);
        if !is_ws_char(c) {
            break ;
        }
        a += 1;
    }
    let mut b: usize = n;
    loop
        invariant
            n == response@.len(),
            a <= b <= n,
            forall|k: int| b <= k < n ==> is_ascii_ws(response@[k]),
        ensures
            a <= b <= n,
            forall|k: int| b <= k < n ==> is_ascii_ws(response@[k]),
            b > a ==> !is_ascii_ws(response@[b - 1]),
        decreases b,
    {
        if b <= a {
            break ;
        }
        let c = *slice_index_get(response, b - 1);
        if !is_ws_char(c) {
            break ;
        }
        b -= 1;
    }
    proof {
        lemma_trim_front_range(response@, a as int);
        let mid = response@.subrange(a as int, n as int);
        lemma_trim_back_range(mid, b - a);
        assert(mid.subrange(0, b - a) =~= response@.subrange(a as int, b as int));
        assert(trim_back(trim_front(response@)) =~= response@.subrange(a as int, b as int));
    }
    let m = b - a;
    if m == 1 {
        let c = lower_char(*slice_index_get(response, a));
        let hit = c == 0x79;
        proof {
            if hit {
                assert(trimmed_lower(response@) =~= seq![0x79u8]);
            } else {
                assert(trimmed_lower(response@)[0] != 0x79u8);
            }
            assert(trimmed_lower(response@).len() != 3);
        }
        hit
    } else if m == 3 {
        let c0 = lower_char(*slice_index_get(response, a));
        let c1 = lower_char(*slice_index_get(response, a + 1));
        let c2 = lower_char(*slice_index_get(response, a + 2));
        let hit = c0 == 0x79 && c1 == 0x65 && c2 == 0x73;
        proof {
            if hit {
                assert(trimmed_lower(response@) =~= seq![0x79u8, 0x65u8, 0x73u8]);
            } else {
                assert(!(trimmed_lower(response@) =~= seq![0x79u8, 0x65u8, 0x73u8]));
            }
            assert(trimmed_lower(response@).len() != 1);
        }
        hit
    } else {
        proof {
            assert(trimmed_lower(response@).len() == m);
        }
        false
    }
}

/// The pager's state after a confirmation response: rendering resumes on a
/// case-insensitive "y" or "yes", anything else ends the session.
pub fn pager_on_response(response: &[u8]) -> (r: PagerState)
    ensures
        r == (if wants_continue(response@) {
            PagerState::Rendering
        } else {
            PagerState::Stopped
        }),
{
    if continue_from_response(response) {
        PagerState::Rendering
    } else {
        PagerState::Stopped
    }
}

} // verus!
