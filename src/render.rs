use crate::buf::BitBuf;
use vstd::prelude::*;

verus! {

/// Number of eight-character groups shown for a sequence of `len` bits: one per byte
/// begun, and one for the empty sequence.
pub open spec fn group_count(len: nat) -> nat {
    if len == 0 {
        1
    } else {
        (len + 7) / 8
    }
}

/// Group `g`: the bits of byte `g`, most significant first, with `.` for each position
/// at or past the end of `s`.
pub open spec fn group_chars(s: Seq<bool>, g: nat) -> Seq<char> {
    Seq::new(
        8,
        |c: int|
            {
                let idx = 8 * g + 7 - c;
                if idx >= s.len() {
                    '.'
                } else if s[idx] {
                    '1'
                } else {
                    '0'
                }
            },
    )
}

/// The first `n` groups, separated by `_`.
pub open spec fn render_groups(s: Seq<bool>, n: nat) -> Seq<char>
    decreases n,
{
    if n == 0 {
        Seq::empty()
    } else if n == 1 {
        group_chars(s, 0)
    } else {
        render_groups(s, (n - 1) as nat) + seq!['_'] + group_chars(s, (n - 1) as nat)
    }
}

/// The text form of a bit sequence, such as `00001110_.......1`.
pub open spec fn render(s: Seq<bool>) -> Seq<char> {
    render_groups(s, group_count(s.len()))
}

/// Relies on `String: FromIterator<char>`: the characters in order make up the string.
#[verifier::external_body]
fn string_from_chars(v: Vec<char>) -> (r: String)
    ensures
        r@ == v@,
{
    String::from_iter(v)
}

/// The text form of the bits of `b`.
pub(crate) fn debug(b: &BitBuf) -> (r: String)
    requires
        b.wf(),
    ensures
        r@ == render(b@),
{
    let len = b.len;
    let groups: usize = if len == 0 {
        1
    } else {
        len / 8 + if len % 8 == 0 {
            0
        } else {
            1
        }
    };
    assert(groups == group_count(len as nat));
    let mut out: Vec<char> = Vec::new();
    let mut g: usize = 0;
    while g < groups
        invariant
            b.wf(),
            len == b@.len(),
            groups == group_count(len as nat),
            g <= groups,
            out@ == render_groups(b@, g as nat),
        decreases groups - g,
    {
        if g != 0 {
            out.push('_');
        }
        let ghost before = out@;
        assert(8 * g < len || len == 0);
        let base: usize = 8 * g;
        let mut c: usize = 0;
        while c < 8
            invariant
                b.wf(),
                len == b@.len(),
                g < groups,
                groups == group_count(len as nat),
                base == 8 * g,
                base < len || len == 0,
                c <= 8,
                out@ == before + group_chars(b@, g as nat).subrange(0, c as int),
            decreases 8 - c,
        {
            let off: usize = 7 - c;
            let ch = if len <= base || off >= len - base {
                '.'
            } else if b.get(base + off) {
                '1'
            } else {
                '0'
            };
            out.push(ch);
            assert(group_chars(b@, g as nat).subrange(0, c + 1) =~= group_chars(
                b@,
                g as nat,
            ).subrange(0, c as int).push(ch));
            c += 1;
        }
        assert(group_chars(b@, g as nat).subrange(0, 8) =~= group_chars(b@, g as nat));
        if g == 0 {
            assert(out@ =~= render_groups(b@, 1));
        } else {
            assert(out@ =~= render_groups(b@, (g + 1) as nat));
        }
        g += 1;
    }
    string_from_chars(out)
}

} // verus!
