//! Names read out of the game's data files.
use vstd::prelude::*;
use vstd::string::StrSliceExecFns;
use crate::text::push_char;

verus! {

/// The first position at or after `from` where `pat` occurs in `s`.
pub open spec fn find_from(s: Seq<char>, pat: Seq<char>, from: int) -> Option<int>
    decreases s.len() + 1 - from,
{
    if from < 0 || from + pat.len() > s.len() {
        None
    } else if s.subrange(from, from + pat.len()) == pat {
        Some(from)
    } else {
        find_from(s, pat, from + 1)
    }
}

/// The pieces of `s` between the occurrences of the non-empty `pat`, found
/// left to right.
pub open spec fn split_by(s: Seq<char>, pat: Seq<char>) -> Seq<Seq<char>>
    decreases s.len(),
{
    if pat.len() == 0 {
        seq![s]
    } else {
        match find_from(s, pat, 0) {
            None => seq![s],
            Some(i) => {
                if 0 <= i && i + pat.len() <= s.len() {
                    seq![s.take(i)] + split_by(s.skip(i + pat.len()), pat)
                } else {
                    seq![s]
                }
            },
        }
    }
}

/// The part of `p` before its first `"`.
pub open spec fn before_quote(p: Seq<char>) -> Seq<char> {
    match find_from(p, seq!['"'], 0) {
        Some(i) => p.take(i),
        None => p,
    }
}

/// The names that a data file declares: what follows each `name="` up to the
/// next `"`.
pub open spec fn declared_names(content: Seq<char>) -> Seq<Seq<char>> {
    let pieces = split_by(content, "name=\""@).skip(1);
    Seq::new(pieces.len(), |k: int| before_quote(pieces[k]))
}

/// Every declared name is closed by a `"`.
pub open spec fn names_closed(content: Seq<char>) -> bool {
    let pieces = split_by(content, "name=\""@).skip(1);
    forall|k: int| 0 <= k < pieces.len() ==> (#[trigger] find_from(pieces[k], seq!['"'], 0)) is Some
}

fn matches_here(s: &str, n: usize, at: usize, pat: &[char]) -> (r: bool)
    requires
        n == s@.len(),
        at + pat@.len() <= n,
    ensures
        r == (s@.subrange(at as int, at + pat@.len()) == pat@),
{
    let mut k: usize = 0;
    while k < pat.len()
        invariant
            k <= pat@.len(),
            n == s@.len(),
            at + pat@.len() <= n,
            forall|j: int| 0 <= j < k ==> #[trigger] s@[at + j] == pat@[j],
        decreases pat@.len() - k,
    {
        if s.get_char(at + k) != pat[k] {
            assert(s@.subrange(at as int, at + pat@.len())[k as int] != pat@[k as int]);
            return false;
        }
        k = k + 1;
    }
    assert(s@.subrange(at as int, at + pat@.len()) =~= pat@) by {
        assert forall|j: int| 0 <= j < pat@.len() implies s@.subrange(at as int, at + pat@.len())[j] == pat@[j] by {
            assert(s@[at + j] == pat@[j]);
        }
    }
    true
}

/// The position of the next occurrence of `pat` in `s` at or after `from`.
fn find_next(s: &str, n: usize, from: usize, pat: &[char]) -> (r: Option<usize>)
    requires
        n == s@.len(),
        from <= n,
    ensures
        match (r, find_from(s@, pat@, from as int)) {
            (Some(a), Some(b)) => a == b,
            (None, None) => true,
            _ => false,
        },
{
    let m = pat.len();
    if m > n {
        return None;
    }
    if m == 0 {
        assert(s@.subrange(from as int, from as int) =~= pat@);
        return Some(from);
    }
    let mut at: usize = from;
    while at <= n - m
        invariant
            n == s@.len(),
            m == pat@.len(),
            1 <= m <= n,
            from <= at,
            find_from(s@, pat@, from as int) == find_from(s@, pat@, at as int),
        decreases n - at,
    {
        if matches_here(s, n, at, pat) {
            return Some(at);
        }
        at = at + 1;
    }
    None
}

fn chars_between(s: &str, from: usize, to: usize) -> (r: String)
    requires
        from <= to <= s@.len(),
    ensures
        r@ == s@.subrange(from as int, to as int),
{
    let mut out = String::new();
    let mut i: usize = from;
    while i < to
        invariant
            from <= i <= to <= s@.len(),
            out@ == s@.subrange(from as int, i as int),
        decreases to - i,
    {
        push_char(&mut out, s.get_char(i));
        i = i + 1;
        assert(out@ =~= s@.subrange(from as int, i as int));
    }
    out
}

/// Searching from `pos + k` is searching the rest of the text from `k`.
proof fn lemma_find_shift(s: Seq<char>, pat: Seq<char>, pos: int, k: int)
    requires
        0 <= pos <= s.len(),
        0 <= k,
    ensures
        find_from(s, pat, pos + k) == match find_from(s.skip(pos), pat, k) {
            Some(i) => Some(i + pos),
            None => None,
        },
    decreases s.len() + 1 - pos - k,
{
    let t = s.skip(pos);
    if pos + k + pat.len() > s.len() {
    } else {
        assert(s.subrange(pos + k, pos + k + pat.len()) =~= t.subrange(k, k + pat.len()));
        if s.subrange(pos + k, pos + k + pat.len()) != pat {
            lemma_find_shift(s, pat, pos, k + 1);
        }
    }
}

/// The names that a data file declares: what follows each `name="` up to the
/// next `"`. Every declared name must be closed by a `"`.
pub fn names_in_file(content: &str) -> (r: Vec<String>)
    requires
        names_closed(content@),
    ensures
        r@.len() == declared_names(content@).len(),
        forall|k: int| 0 <= k < r@.len() ==> #[trigger] r@[k]@ == declared_names(content@)[k],
{
    proof {
        reveal_strlit("name=\"");
    }
    let pat: [char; 6] = ['n', 'a', 'm', 'e', '=', '"'];
    assert(pat@ =~= "name=\""@);
    let quote: [char; 1] = ['"'];
    assert(quote@ =~= seq!['"']);
    let n = content.unicode_len();
    let ghost all = split_by(content@, pat@);
    let mut out: Vec<String> = Vec::new();
    let mut pos: usize = match find_next(content, n, 0, pat.as_slice()) {
        Some(i) => {
            proof {
                lemma_find_bound(content@, pat@, 0);
                assert(all == seq![content@.take(i as int)] + split_by(content@.skip(i + 6), pat@));
                assert(all.skip(1) =~= split_by(content@.skip(i + 6), pat@));
            }
            i + 6
        },
        None => {
            proof {
                assert(all =~= seq![content@]);
                assert(declared_names(content@).len() == 0);
            }
            return out;
        },
    };
    let ghost mut done: int = 0;
    loop
        invariant
            n == content@.len(),
            pat@ == "name=\""@,
            quote@ == seq!['"'],
            all == split_by(content@, pat@),
            names_closed(content@),
            6 <= pos <= n,
            all.skip(1 + done) == split_by(content@.skip(pos as int), pat@),
            out@.len() == done,
            0 <= done < all.skip(1).len(),
            forall|k: int| 0 <= k < done ==> #[trigger] out@[k]@ == declared_names(content@)[k],
        decreases n - pos,
    {
        let ghost rest = content@.skip(pos as int);
        let next = find_next(content, n, pos, pat.as_slice());
        proof {
            lemma_find_bound(content@, pat@, pos as int);
            lemma_find_shift(content@, pat@, pos as int, 0);
        }
        let end = match next {
            Some(j) => j,
            None => n,
        };
        let piece = chars_between(content, pos, end);
        proof {
            match next {
                Some(j) => {
                    assert(find_from(rest, pat@, 0) == Some(j - pos));
                    assert(split_by(rest, pat@) == seq![rest.take(j - pos)] + split_by(rest.skip(j - pos + 6), pat@));
                    assert(rest.take(j - pos) =~= piece@);
                    assert(rest.skip(j - pos + 6) =~= content@.skip(j + 6));
                },
                None => {
                    assert(find_from(rest, pat@, 0) is None);
                    assert(split_by(rest, pat@) == seq![rest]);
                    assert(rest =~= piece@);
                },
            }
            assert(all.skip(1 + done)[0] == all.skip(1)[done]);
            assert(piece@ == all.skip(1)[done]);
            assert(find_from(all.skip(1)[done], seq!['"'], 0) is Some);
        }
        let plen = piece.as_str().unicode_len();
        let qi = match find_next(piece.as_str(), plen, 0, quote.as_slice()) {
            Some(j) => j,
            None => {
                proof {
                    assert(false);
                }
                0
            },
        };
        proof {
            lemma_find_bound(piece@, quote@, 0);
        }
        let name = chars_between(piece.as_str(), 0, qi);
        proof {
            assert(name@ =~= before_quote(piece@));
            assert(declared_names(content@)[done] == before_quote(all.skip(1)[done]));
        }
        out.push(name);
        proof {
            done = done + 1;
        }
        match next {
            Some(j) => {
                proof {
                    assert(all.skip(1 + done) =~= all.skip(1 + (done - 1)).skip(1));
                }
                pos = j + 6;
            },
            None => {
                proof {
                    assert(all.skip(1 + (done - 1)).len() == 1);
                    assert(done == all.skip(1).len());
                }
                return out;
            },
        }
    }
}

/// The lines of a text, as std splits them: at each `\n`, dropping a `\r`
/// just before it; a final line ending adds no empty line.
pub open spec fn lines_of(s: Seq<char>) -> Seq<Seq<char>>
    decreases s.len(),
{
    if s.len() == 0 {
        Seq::empty()
    } else {
        match find_from(s, seq!['\n'], 0) {
            None => seq![s],
            Some(i) => if 0 <= i < s.len() {
                let l = s.take(i);
                let l = if l.len() > 0 && l.last() == '\r' { l.drop_last() } else { l };
                seq![l] + lines_of(s.skip(i + 1))
            } else {
                seq![s]
            },
        }
    }
}

/// The piece of `l` after its first `"` and before the next one.
pub open spec fn quoted_id(l: Seq<char>) -> Seq<char> {
    match find_from(l, seq!['"'], 0) {
        None => Seq::empty(),
        Some(i) => before_quote(l.skip(i + 1)),
    }
}

/// A line of the status list that declares an effect id worth keeping.
pub open spec fn status_line(l: Seq<char>) -> bool {
    &&& !(l.len() > 0 && l[0] == '-')
    &&& find_from(l, "id=\""@, 0) is Some
    &&& find_from(l, "BRAIN_DAMAGE"@, 0) is None
}

/// The ids of the status effects that the status list declares, in order.
pub open spec fn status_ids(lines: Seq<Seq<char>>) -> Seq<Seq<char>>
    decreases lines.len(),
{
    if lines.len() == 0 {
        Seq::empty()
    } else {
        status_ids(lines.drop_last()) + if status_line(lines.last()) {
            seq![quoted_id(lines.last())]
        } else {
            Seq::empty()
        }
    }
}

fn chars_of(s: &str) -> (r: Vec<char>)
    ensures
        r@ == s@,
{
    let n = s.unicode_len();
    let mut out: Vec<char> = Vec::new();
    let mut i: usize = 0;
    while i < n
        invariant
            n == s@.len(),
            i <= n,
            out@ == s@.take(i as int),
        decreases n - i,
    {
        out.push(s.get_char(i));
        i = i + 1;
        assert(out@ =~= s@.take(i as int));
    }
    assert(s@.take(i as int) =~= s@);
    out
}

fn find_in(s: &[char], from: usize, to: usize, pat: &[char]) -> (r: Option<usize>)
    requires
        from <= to <= s@.len(),
    ensures
        match (r, find_from(s@.subrange(from as int, to as int), pat@, 0)) {
            (Some(a), Some(b)) => a == from + b,
            (None, None) => true,
            _ => false,
        },
{
    let ghost t = s@.subrange(from as int, to as int);
    let m = pat.len();
    if m > to - from {
        return None;
    }
    if m == 0 {
        assert(t.subrange(0, 0) =~= pat@);
        return Some(from);
    }
    let mut at: usize = from;
    while at <= to - m
        invariant
            from <= at,
            from <= to <= s@.len(),
            t == s@.subrange(from as int, to as int),
            1 <= m <= to - from,
            m == pat@.len(),
            find_from(t, pat@, 0) == find_from(t, pat@, at - from),
        decreases to - at,
    {
        let mut k: usize = 0;
        let mut same = true;
        while k < m
            invariant
                k <= m,
                m == pat@.len(),
                at + m <= to <= s@.len(),
                same == forall|j: int| 0 <= j < k ==> #[trigger] s@[at + j] == pat@[j],
            decreases m - k,
        {
            if s[at + k] != pat[k] {
                same = false;
            }
            k = k + 1;
        }
        proof {
            let w = t.subrange(at - from, at - from + m);
            if same {
                assert(w =~= pat@) by {
                    assert forall|j: int| 0 <= j < m implies w[j] == pat@[j] by {
                        assert(s@[at + j] == pat@[j]);
                    }
                }
            } else {
                let j = choose|j: int| 0 <= j < m && s@[at + j] != pat@[j];
                assert(w[j] == s@[at + j]);
            }
        }
        if same {
            return Some(at);
        }
        at = at + 1;
    }
    None
}

fn string_of(s: &[char], from: usize, to: usize) -> (r: String)
    requires
        from <= to <= s@.len(),
    ensures
        r@ == s@.subrange(from as int, to as int),
{
    let mut out = String::new();
    let mut i: usize = from;
    while i < to
        invariant
            from <= i <= to <= s@.len(),
            out@ == s@.subrange(from as int, i as int),
        decreases to - i,
    {
        push_char(&mut out, s[i]);
        i = i + 1;
        assert(out@ =~= s@.subrange(from as int, i as int));
    }
    out
}

/// The ids of the status effects that the game's status list declares: from
/// each line that does not start with `-`, declares an `id="`, and does not
/// name `BRAIN_DAMAGE`, the first quoted text.
#[verifier::spinoff_prover]
#[verifier::rlimit(40)]
pub fn status_effect_ids(file: &str) -> (r: Vec<String>)
    ensures
        r@.len() == status_ids(lines_of(file@)).len(),
        forall|k: int| 0 <= k < r@.len() ==> #[trigger] r@[k]@ == status_ids(lines_of(file@))[k],
{
    proof {
        reveal_strlit("id=\"");
        reveal_strlit("BRAIN_DAMAGE");
    }
    let text = chars_of(file);
    let id_pat: [char; 4] = ['i', 'd', '=', '"'];
    assert(id_pat@ =~= "id=\""@);
    let bd: [char; 12] = ['B', 'R', 'A', 'I', 'N', '_', 'D', 'A', 'M', 'A', 'G', 'E'];
    assert(bd@ =~= "BRAIN_DAMAGE"@);
    let nl: [char; 1] = ['\n'];
    assert(nl@ =~= seq!['\n']);
    let quote: [char; 1] = ['"'];
    assert(quote@ =~= seq!['"']);
    let n = text.len();
    let mut out: Vec<String> = Vec::new();
    let mut pos: usize = 0;
    let ghost mut seen: Seq<Seq<char>> = Seq::empty();
    assert(text@.skip(0) =~= text@);
    while pos < n
        invariant
            n == text@.len(),
            text@ == file@,
            pos <= n,
            id_pat@ == "id=\""@,
            bd@ == "BRAIN_DAMAGE"@,
            nl@ == seq!['\n'],
            quote@ == seq!['"'],
            lines_of(text@) == seen + lines_of(text@.skip(pos as int)),
            out@.len() == status_ids(seen).len(),
            forall|k: int| 0 <= k < out@.len() ==> #[trigger] out@[k]@ == status_ids(seen)[k],
        decreases n - pos,
    {
        let ghost rest = text@.skip(pos as int);
        let nlpos = find_in(text.as_slice(), pos, n, nl.as_slice());
        proof {
            assert(text@.subrange(pos as int, n as int) =~= rest);
            lemma_find_bound(rest, nl@, 0);
        }
        let (end, next) = match nlpos {
            Some(j) => (j, j + 1),
            None => (n, n),
        };
        let cr = end > pos && text[end - 1] == '\r' && nlpos.is_some();
        let lend = if cr { end - 1 } else { end };
        let ghost line = text@.subrange(pos as int, lend as int);
        proof {
            match nlpos {
                Some(j) => {
                    assert(rest.take(j - pos) =~= text@.subrange(pos as int, j as int));
                    assert(rest.skip(j - pos + 1) =~= text@.skip(j + 1));
                    let l = rest.take(j - pos);
                    if cr {
                        assert(l.drop_last() =~= line);
                    } else {
                        assert(l =~= line);
                    }
                    assert(lines_of(rest) == seq![line] + lines_of(text@.skip(j + 1)));
                },
                None => {
                    assert(rest =~= line);
                    assert(lines_of(rest) == seq![line]);
                    assert(text@.skip(n as int) =~= Seq::<char>::empty());
                },
            }
        }
        let starts_dash = lend > pos && text[pos] == '-';
        let has_id = find_in(text.as_slice(), pos, lend, id_pat.as_slice()).is_some();
        let has_bd = find_in(text.as_slice(), pos, lend, bd.as_slice()).is_some();
        let ghost before = out@;
        if !starts_dash && has_id && !has_bd {
            let q1 = find_in(text.as_slice(), pos, lend, quote.as_slice());
            let id = match q1 {
                Some(a) => {
                    proof {
                        lemma_find_bound(line, quote@, 0);
                    }
                    let q2 = find_in(text.as_slice(), a + 1, lend, quote.as_slice());
                    proof {
                        assert(line.skip(a - pos + 1) =~= text@.subrange(a + 1, lend as int));
                        lemma_find_bound(line.skip(a - pos + 1), quote@, 0);
                    }
                    match q2 {
                        Some(b) => {
                            proof {
                                assert(line.skip(a - pos + 1).take(b - a - 1) =~= text@.subrange(a + 1, b as int));
                            }
                            string_of(text.as_slice(), a + 1, b)
                        },
                        None => string_of(text.as_slice(), a + 1, lend),
                    }
                },
                None => String::new(),
            };
            proof {
                assert(status_line(line));
                assert(id@ == quoted_id(line));
            }
            out.push(id);
        } else {
            proof {
                assert(!status_line(line));
            }
        }
        proof {
            assert(seen.push(line).drop_last() =~= seen);
            assert(seen.push(line).last() == line);
            assert(status_ids(seen.push(line)).len() == out@.len());
            assert forall|k: int| 0 <= k < out@.len() implies #[trigger] out@[k]@ == status_ids(seen.push(line))[k] by {
                if k < before.len() {
                    assert(out@[k] == before[k]);
                }
            }
            assert(seen + (seq![line] + lines_of(text@.skip(next as int))) =~= seen.push(line) + lines_of(text@.skip(next as int)));
            seen = seen.push(line);
        }
        pos = next;
    }
    proof {
        assert(text@.skip(pos as int) =~= Seq::<char>::empty());
        assert(seen + Seq::<Seq<char>>::empty() =~= seen);
    }
    out
}

proof fn lemma_find_bound(s: Seq<char>, pat: Seq<char>, from: int)
    ensures
        find_from(s, pat, from) matches Some(i) ==> from <= i && i + pat.len() <= s.len()
            && s.subrange(i, i + pat.len()) == pat,
    decreases s.len() + 1 - from,
{
    if !(from < 0 || from + pat.len() > s.len()) && s.subrange(from, from + pat.len()) != pat {
        lemma_find_bound(s, pat, from + 1);
    }
}

} // verus!
