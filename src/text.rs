//! Text scanning for map documents: substring search, and cell data written
//! as comma-separated decimal numbers with line breaks anywhere in between.
use vstd::prelude::*;
use vstd::string::StringSliceAdditionalSpecFns;

verus! {

/// Whether `needle` occurs in `hay` starting at byte `i`.
pub open spec fn occurs_at(hay: Seq<u8>, needle: Seq<u8>, i: int) -> bool {
    0 <= i && i + needle.len() <= hay.len() && hay.subrange(i, i + needle.len()) == needle
}

/// Whether `needle` occurs anywhere in `hay`.
pub open spec fn spec_contains(hay: Seq<u8>, needle: Seq<u8>) -> bool {
    exists|i: int| occurs_at(hay, needle, i)
}

/// Whether `needle` occurs in `hay`.
pub fn contains(hay: &str, needle: &str) -> (r: bool)
    ensures
        r == spec_contains(hay.spec_bytes(), needle.spec_bytes()),
{
    let h: &[u8] = hay.as_bytes();
    let n: &[u8] = needle.as_bytes();
    if n.len() > h.len() {
        proof {
            assert forall|i: int| !occurs_at(h@, n@, i) by {}
        }
        return false;
    }
    let last: usize = h.len() - n.len();
    let mut i: usize = 0;
    while i <= last
        invariant
            h@ == hay.spec_bytes(),
            n@ == needle.spec_bytes(),
            last == h@.len() - n@.len(),
            0 <= i <= last + 1,
            h@.len() <= usize::MAX,
            forall|k: int| 0 <= k < i ==> !#[trigger] occurs_at(h@, n@, k),
        decreases last + 1 - i,
    {
        let mut j: usize = 0;
        let mut same: bool = true;
        while j < n.len()
            invariant
                h@ == hay.spec_bytes(),
                n@ == needle.spec_bytes(),
                last == h@.len() - n@.len(),
                0 <= i <= last,
                0 <= j <= n@.len(),
                i + n@.len() <= h@.len(),
                h@.len() <= usize::MAX,
                same == (forall|m: int| 0 <= m < j ==> h@[i + m] == n@[m]),
            decreases n@.len() - j,
        {
            if h[i + j] != n[j] {
                same = false;
            }
            j = j + 1;
        }
        if same {
            proof {
                assert(h@.subrange(i as int, i + n@.len()) =~= n@);
                assert(occurs_at(h@, n@, i as int));
            }
            return true;
        }
        proof {
            let m = choose|m: int| 0 <= m < n@.len() && h@[i + m] != n@[m];
            assert(h@.subrange(i as int, i + n@.len())[m] != n@[m]);
        }
        if i == last {
            proof {
                assert forall|k: int| !occurs_at(h@, n@, k) by {
                    if 0 <= k && k + n@.len() <= h@.len() && k != i {
                        assert(k < i);
                    }
                }
            }
            return false;
        }
        i = i + 1;
    }
    proof {
        assert forall|k: int| !occurs_at(h@, n@, k) by {
            if 0 <= k && k + n@.len() <= h@.len() {
                assert(k < i);
            }
        }
    }
    false
}

pub open spec fn is_line_break(b: u8) -> bool {
    b == 10 || b == 13
}

pub open spec fn is_digit(b: u8) -> bool {
    48 <= b <= 57
}

/// The text with every carriage return and line feed taken out.
pub open spec fn strip_breaks(s: Seq<u8>) -> Seq<u8>
    decreases s.len(),
{
    if s.len() == 0 {
        s
    } else {
        let p = strip_breaks(s.drop_last());
        if is_line_break(s.last()) {
            p
        } else {
            p.push(s.last())
        }
    }
}

/// The pieces between commas; text without a comma is one piece.
pub open spec fn split_commas(s: Seq<u8>) -> Seq<Seq<u8>>
    decreases s.len(),
{
    if s.len() == 0 {
        seq![Seq::<u8>::empty()]
    } else {
        let p = split_commas(s.drop_last());
        if s.last() == 44 {
            p.push(Seq::<u8>::empty())
        } else {
            p.update(p.len() - 1, p.last().push(s.last()))
        }
    }
}

/// The value of a string of decimal digits.
pub open spec fn digits_value(s: Seq<u8>) -> nat
    decreases s.len(),
{
    if s.len() == 0 {
        0
    } else {
        digits_value(s.drop_last()) * 10 + (s.last() - 48) as nat
    }
}

/// Whether `s` is a decimal number that fits in a `u32`.
pub open spec fn is_number(s: Seq<u8>) -> bool {
    &&& s.len() > 0
    &&& forall|i: int| 0 <= i < s.len() ==> is_digit(#[trigger] s[i])
    &&& digits_value(s) <= u32::MAX
}

/// The numbers of comma-separated cell data once line breaks are taken
/// out; nothing when a piece is not a decimal number that fits in a `u32`.
pub open spec fn spec_parse_cells(s: Seq<u8>) -> Option<Seq<u32>> {
    let pieces = split_commas(strip_breaks(s));
    if forall|k: int| 0 <= k < pieces.len() ==> is_number(#[trigger] pieces[k]) {
        Some(pieces.map_values(|p: Seq<u8>| digits_value(p) as u32))
    } else {
        None
    }
}

/// Whether every byte of `s` is a digit and their value fits in a `u32`.
spec fn digits_fit(s: Seq<u8>) -> bool {
    (forall|i: int| 0 <= i < s.len() ==> is_digit(#[trigger] s[i])) && digits_value(s) <= u32::MAX
}

/// Reads comma-separated cell data.
pub fn parse_cells(data: &str) -> (r: Option<Vec<u32>>)
    ensures
        r is Some == spec_parse_cells(data.spec_bytes()) is Some,
        r is Some ==> r.unwrap()@ == spec_parse_cells(data.spec_bytes()).unwrap(),
{
    let bytes: &[u8] = data.as_bytes();
    let ghost all = bytes@;
    let mut out: Vec<u32> = Vec::new();
    let mut cur: u64 = 0;
    let mut has_digit: bool = false;
    let mut last_ok: bool = true;
    let mut valid: bool = true;
    let mut i: usize = 0;
    proof {
        assert(all.subrange(0, 0) =~= Seq::<u8>::empty());
        assert(split_commas(strip_breaks(Seq::<u8>::empty())) =~= seq![Seq::<u8>::empty()]);
    }
    while i < bytes.len()
        invariant
            all == bytes@,
            0 <= i <= all.len(),
            ({
                let ps = split_commas(strip_breaks(all.subrange(0, i as int)));
                &&& ps.len() >= 1
                &&& has_digit == (ps.last().len() > 0)
                &&& last_ok == digits_fit(ps.last())
                &&& last_ok ==> cur == digits_value(ps.last())
                &&& valid == (forall|k: int| 0 <= k < ps.len() - 1 ==> is_number(#[trigger] ps[k]))
                &&& valid ==> out@.len() == ps.len() - 1
                &&& valid ==> forall|k: int| 0 <= k < ps.len() - 1 ==> out@[k] == digits_value(#[trigger] ps[k])
            }),
        decreases all.len() - i,
    {
        let b: u8 = bytes[i];
        let ghost pre = all.subrange(0, i as int);
        let ghost ps = split_commas(strip_breaks(pre));
        proof {
            assert(all.subrange(0, i + 1).drop_last() =~= pre);
            assert(all.subrange(0, i + 1).last() == b);
        }
        if b == 10 || b == 13 {
            proof {
                assert(strip_breaks(all.subrange(0, i + 1)) == strip_breaks(pre));
            }
        } else if b == 44 {
            proof {
                let st = strip_breaks(pre).push(b);
                assert(strip_breaks(all.subrange(0, i + 1)) == st);
                assert(st.drop_last() =~= strip_breaks(pre));
                assert(split_commas(st) == ps.push(Seq::<u8>::empty()));
            }
            if valid && last_ok && has_digit {
                out.push(cur as u32);
            } else {
                valid = false;
            }
            cur = 0;
            has_digit = false;
            last_ok = true;
            proof {
                let nps = ps.push(Seq::<u8>::empty());
                assert(nps.last() =~= Seq::<u8>::empty());
                assert(digits_fit(nps.last()));
                assert(digits_value(nps.last()) == 0);
                assert forall|k: int| 0 <= k < nps.len() - 1 - 1 implies nps[k] == ps[k] by {}
                if !valid {
                    if !(forall|k: int| 0 <= k < ps.len() - 1 ==> is_number(#[trigger] ps[k])) {
                        let k = choose|k: int| 0 <= k < ps.len() - 1 && !is_number(#[trigger] ps[k]);
                        assert(nps[k] == ps[k]);
                    } else {
                        assert(!is_number(nps[ps.len() - 1]));
                    }
                }
            }
        } else {
            proof {
                let st = strip_breaks(pre).push(b);
                assert(strip_breaks(all.subrange(0, i + 1)) == st);
                assert(st.drop_last() =~= strip_breaks(pre));
                assert(split_commas(st) == ps.update(ps.len() - 1, ps.last().push(b)));
            }
            let ghost np = ps.last().push(b);
            proof {
                assert(np.drop_last() =~= ps.last());
            }
            if b >= 48 && b <= 57 && last_ok {
                let next: u64 = cur * 10 + (b - 48) as u64;
                if next <= 0xFFFF_FFFF {
                    cur = next;
                } else {
                    last_ok = false;
                }
                proof {
                    if last_ok {
                        assert forall|j: int| 0 <= j < np.len() implies is_digit(#[trigger] np[j]) by {
                            if j < np.len() - 1 {
                                assert(np[j] == ps.last()[j]);
                            }
                        }
                    }
                }
            } else {
                proof {
                    let lp = ps.last();
                    if last_ok {
                        assert(!is_digit(np[np.len() - 1]));
                    } else {
                        if !(forall|j: int| 0 <= j < lp.len() ==> is_digit(#[trigger] lp[j])) {
                            let j = choose|j: int| 0 <= j < lp.len() && !is_digit(#[trigger] lp[j]);
                            assert(np[j] == lp[j]);
                        } else if is_digit(b) {
                            assert(digits_value(np) >= digits_value(lp));
                        }
                    }
                }
                last_ok = false;
            }
            has_digit = true;
            proof {
                let nps = ps.update(ps.len() - 1, np);
                assert forall|k: int| 0 <= k < nps.len() - 1 implies nps[k] == ps[k] by {}
            }
        }
        i = i + 1;
    }
    proof {
        assert(all.subrange(0, all.len() as int) =~= all);
    }
    if valid && last_ok && has_digit {
        out.push(cur as u32);
        proof {
            let ps = split_commas(strip_breaks(all));
            assert(forall|k: int| 0 <= k < ps.len() ==> is_number(#[trigger] ps[k]));
            assert(out@ =~= ps.map_values(|p: Seq<u8>| digits_value(p) as u32));
        }
        Some(out)
    } else {
        proof {
            let ps = split_commas(strip_breaks(all));
            if valid {
                assert(!is_number(ps[ps.len() - 1]));
            }
        }
        None
    }
}

} // verus!
