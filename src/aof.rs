//! The append-only file: the text of its records, how a file is replayed
//! into the engine at start-up, and when the writer flushes its buffer.

use crate::codec::{dec_str, digit_char, digit_value, decimal, digits_value, is_digit, parse_unsigned, parse_unsigned_max, unsigned_digits};
use crate::redis::{deadline_after, expiry_of, Redis, RecordView, RedisView, Timestamp};
use vstd::prelude::*;

verus! {

broadcast use vstd::string::group_string_axioms;

/// The line a store of `value` under `key`, expiring at `exp` (`0`: never),
/// is logged as.
pub open spec fn set_line(key: Seq<char>, value: Seq<char>, exp: nat) -> Seq<char> {
    seq!['S', 'E', 'T', ' '] + key + seq![' '] + value + seq![' '] + dec_str(exp) + seq!['\n']
}

/// The line a removal of `key` is logged as.
pub open spec fn del_line(key: Seq<char>) -> Seq<char> {
    seq!['D', 'E', 'L', ' '] + key + seq![' ', '0', ' ', '0', '\n']
}

/// `s` cut at every `sep`: one more piece than there are separators.
pub open spec fn split(s: Seq<char>, sep: char) -> Seq<Seq<char>>
    decreases s.len(),
{
    if s.len() == 0 {
        seq![Seq::empty()]
    } else {
        let p = split(s.drop_last(), sep);
        if s.last() == sep {
            p.push(Seq::empty())
        } else {
            p.update(p.len() - 1, p.last().push(s.last()))
        }
    }
}

/// A record of the file.
pub enum AofRecord {
    Store { key: String, value: String, expires_at: Timestamp },
    Remove { key: String },
}

/// Why a line holds no record.
#[derive(PartialEq, Eq, Structural, Debug, Clone, Copy)]
pub enum AofLineError {
    /// It does not cut into exactly four space-separated fields.
    FieldCount,
    /// Its expiry is not a number.
    BadNumber,
    /// Its verb is neither `SET` nor `DEL`.
    UnknownVerb,
}

/// What a line (without its newline) holds, as plain values.
pub ghost enum LineMeaning {
    Store(Seq<char>, Seq<char>, nat),
    Remove(Seq<char>),
    Invalid(AofLineError),
}

/// An ASCII whitespace character.
pub open spec fn is_blank(c: char) -> bool {
    c == ' ' || c == '\t' || c == '\n' || c == '\r' || c == '\x0b' || c == '\x0c'
}

/// `s` holds no whitespace.
pub open spec fn no_blank(s: Seq<char>) -> bool {
    forall|i: int| 0 <= i < s.len() ==> !is_blank(#[trigger] s[i])
}

/// The whitespace-separated tokens of `s`: its maximal runs of
/// non-whitespace characters, in order.
pub open spec fn tokens(s: Seq<char>) -> Seq<Seq<char>>
    decreases s.len(),
{
    if s.len() == 0 {
        Seq::empty()
    } else {
        let p = tokens(s.drop_last());
        let c = s.last();
        if is_blank(c) {
            p
        } else if s.len() >= 2 && !is_blank(s[s.len() - 2]) {
            p.update(p.len() - 1, p.last().push(c))
        } else {
            p.push(seq![c])
        }
    }
}

/// How a line without its newline reads: four whitespace-separated tokens,
/// verb, key, value and expiry.
pub open spec fn line_meaning(line: Seq<char>) -> LineMeaning {
    let f = tokens(line);
    if f.len() != 4 {
        LineMeaning::Invalid(AofLineError::FieldCount)
    } else if parse_unsigned(f[3], u128::MAX as nat) is None {
        LineMeaning::Invalid(AofLineError::BadNumber)
    } else if f[0] == seq!['S', 'E', 'T'] {
        LineMeaning::Store(f[1], f[2], parse_unsigned(f[3], u128::MAX as nat)->0)
    } else if f[0] == seq!['D', 'E', 'L'] {
        LineMeaning::Remove(f[1])
    } else {
        LineMeaning::Invalid(AofLineError::UnknownVerb)
    }
}

pub open spec fn record_meaning(r: AofRecord) -> LineMeaning {
    match r {
        AofRecord::Store { key, value, expires_at } => LineMeaning::Store(key@, value@, expires_at as nat),
        AofRecord::Remove { key } => LineMeaning::Remove(key@),
    }
}

/// The state after replaying one record at instant `now`: a store whose
/// expiry has passed becomes a removal.
pub open spec fn replay_step(v: RedisView, m: LineMeaning, now: u128) -> RedisView {
    match m {
        LineMeaning::Store(k, val, exp) => if exp == 0 || exp > now {
            v.after_set(k, val, exp as u128)
        } else {
            RedisView { kvs: v.kvs.remove(k), ..v }
        },
        LineMeaning::Remove(k) => RedisView { kvs: v.kvs.remove(k), ..v },
        LineMeaning::Invalid(_) => v,
    }
}

/// The state after replaying `lines` in order at instant `now`.
pub open spec fn replay_lines(v: RedisView, lines: Seq<Seq<char>>, now: u128) -> RedisView
    decreases lines.len(),
{
    if lines.len() == 0 {
        v
    } else {
        replay_step(replay_lines(v, lines.drop_last(), now), line_meaning(lines.last()), now)
    }
}

/// The log line for a store.
pub fn aof_set_line(key: &str, value: &str, exp_at: Timestamp) -> (r: String)
    ensures
        r@ == set_line(key@, value@, exp_at as nat),
{
    let mut s = String::new();
    proof {
        reveal_strlit("SET ");
        reveal_strlit(" ");
        reveal_strlit("\n");
    }
    s.append("SET ");
    s.append(key);
    s.append(" ");
    s.append(value);
    s.append(" ");
    s.append(decimal(exp_at).as_str());
    s.append("\n");
    assert(s@ =~= set_line(key@, value@, exp_at as nat));
    s
}

/// The log line for a removal.
pub fn aof_del_line(key: &str) -> (r: String)
    ensures
        r@ == del_line(key@),
{
    let mut s = String::new();
    proof {
        reveal_strlit("DEL ");
        reveal_strlit(" 0 0\n");
    }
    s.append("DEL ");
    s.append(key);
    s.append(" 0 0\n");
    assert(s@ =~= del_line(key@));
    s
}

/// The pieces of `s` cut at every `sep`.
pub fn split_at_char(s: &str, sep: char) -> (r: Vec<String>)
    ensures
        r@.map_values(|x: String| x@) == split(s@, sep),
{
    let n = s.unicode_len();
    let mut out: Vec<String> = Vec::new();
    let mut start: usize = 0;
    let mut i: usize = 0;
    assert(s@.take(0) =~= Seq::<char>::empty());
    assert(out@.map_values(|x: String| x@).push(s@.subrange(0, 0)) =~= split(s@.take(0), sep));
    while i < n
        invariant
            n == s@.len(),
            start <= i <= n,
            out@.map_values(|x: String| x@).push(s@.subrange(start as int, i as int)) == split(
                s@.take(i as int),
                sep,
            ),
        decreases n - i,
    {
        let c = s.get_char(i);
        assert(s@.take(i + 1).drop_last() =~= s@.take(i as int));
        let ghost before = out@.map_values(|x: String| x@);
        if c == sep {
            let piece = s.substring_char(start, i).to_owned();
            out.push(piece);
            assert(out@.map_values(|x: String| x@) =~= before.push(s@.subrange(start as int, i as int)));
            start = i + 1;
            assert(s@.take(i + 1).last() == sep);
            assert(s@.subrange(start as int, i + 1) =~= Seq::<char>::empty());
            assert(out@.map_values(|x: String| x@).push(s@.subrange(start as int, i + 1)) =~= split(
                s@.take(i + 1),
                sep,
            ));
        } else {
            assert(s@.take(i + 1).last() == c);
            assert(s@.subrange(start as int, i + 1) =~= s@.subrange(start as int, i as int).push(c));
            assert(before.push(s@.subrange(start as int, i + 1)) =~= split(s@.take(i + 1), sep));
        }
        i += 1;
    }
    let last = s.substring_char(start, n).to_owned();
    out.push(last);
    assert(s@.take(n as int) =~= s@);
    assert(out@.map_values(|x: String| x@) =~= split(s@, sep));
    out
}

fn blank(c: char) -> (r: bool)
    ensures
        r == is_blank(c),
{
    c == ' ' || c == '\t' || c == '\n' || c == '\r' || c == '\x0b' || c == '\x0c'
}

/// The whitespace-separated tokens of `s`.
pub fn tokens_of(s: &str) -> (r: Vec<String>)
    ensures
        r@.map_values(|x: String| x@) == tokens(s@),
{
    let n = s.unicode_len();
    let mut out: Vec<String> = Vec::new();
    let mut start: usize = 0;
    let mut in_word = false;
    let mut i: usize = 0;
    assert(s@.take(0) =~= Seq::<char>::empty());
    assert(out@.map_values(|x: String| x@) =~= Seq::<Seq<char>>::empty());
    while i < n
        invariant
            n == s@.len(),
            start <= i <= n,
            in_word <==> (i > 0 && !is_blank(s@[i - 1])),
            in_word ==> start < i,
            tokens(s@.take(i as int)) == if in_word {
                out@.map_values(|x: String| x@).push(s@.subrange(start as int, i as int))
            } else {
                out@.map_values(|x: String| x@)
            },
        decreases n - i,
    {
        let c = s.get_char(i);
        let ghost t = s@.take(i + 1);
        assert(t.drop_last() =~= s@.take(i as int));
        assert(t.last() == c);
        let ghost before = out@.map_values(|x: String| x@);
        if blank(c) {
            if in_word {
                let piece = s.substring_char(start, i).to_owned();
                out.push(piece);
                assert(out@.map_values(|x: String| x@) =~= before.push(s@.subrange(start as int, i as int)));
            }
            in_word = false;
        } else {
            if in_word {
                assert(t[i - 1] == s@[i - 1]);
                assert(s@.subrange(start as int, i + 1) =~= s@.subrange(start as int, i as int).push(c));
                assert(tokens(t) =~= before.push(s@.subrange(start as int, i + 1)));
            } else {
                if i > 0 {
                    assert(t[i - 1] == s@[i - 1]);
                }
                start = i;
                in_word = true;
                assert(s@.subrange(start as int, i + 1) =~= seq![c]);
            }
        }
        i += 1;
    }
    assert(s@.take(n as int) =~= s@);
    if in_word {
        let piece = s.substring_char(start, n).to_owned();
        let ghost before = out@.map_values(|x: String| x@);
        out.push(piece);
        assert(out@.map_values(|x: String| x@) =~= before.push(s@.subrange(start as int, n as int)));
    }
    out
}

fn is_word(s: &String, w: &str) -> (r: bool)
    ensures
        r == (s@ == w@),
{
    let t = w.to_owned();
    *s == t
}

/// Reads one line of the file (without its newline).
pub fn parse_aof_line(line: &str) -> (r: Result<AofRecord, AofLineError>)
    ensures
        match line_meaning(line@) {
            LineMeaning::Invalid(e) => r == Err::<AofRecord, AofLineError>(e),
            m => r matches Ok(rec) && record_meaning(rec) == m,
        },
{
    let f = tokens_of(line);
    assert(f@.len() == tokens(line@).len());
    if f.len() != 4 {
        return Err(AofLineError::FieldCount);
    }
    assert(f@[0]@ == tokens(line@)[0]);
    assert(f@[1]@ == tokens(line@)[1]);
    assert(f@[2]@ == tokens(line@)[2]);
    assert(f@[3]@ == tokens(line@)[3]);
    let exp = match parse_unsigned_max(f[3].as_str(), u128::MAX) {
        Some(x) => x,
        None => {
            return Err(AofLineError::BadNumber);
        },
    };
    proof {
        reveal_strlit("SET");
        reveal_strlit("DEL");
    }
    if is_word(&f[0], "SET") {
        assert(f@[0]@ =~= seq!['S', 'E', 'T']);
        Ok(AofRecord::Store { key: f[1].clone(), value: f[2].clone(), expires_at: exp })
    } else if is_word(&f[0], "DEL") {
        assert(f@[0]@ =~= seq!['D', 'E', 'L']);
        assert(f@[0]@ != seq!['S', 'E', 'T']);
        Ok(AofRecord::Remove { key: f[1].clone() })
    } else {
        assert(f@[0]@ != seq!['S', 'E', 'T']) by {
            if f@[0]@ == seq!['S', 'E', 'T'] {
                assert("SET"@ =~= seq!['S', 'E', 'T']);
            }
        }
        assert(f@[0]@ != seq!['D', 'E', 'L']) by {
            if f@[0]@ == seq!['D', 'E', 'L'] {
                assert("DEL"@ =~= seq!['D', 'E', 'L']);
            }
        }
        Err(AofLineError::UnknownVerb)
    }
}

/// How many of `lines` are neither empty nor records.
pub open spec fn skipped_count(lines: Seq<Seq<char>>) -> nat
    decreases lines.len(),
{
    if lines.len() == 0 {
        0
    } else {
        skipped_count(lines.drop_last()) + if lines.last().len() > 0 && line_meaning(
            lines.last(),
        ) is Invalid {
            1nat
        } else {
            0nat
        }
    }
}

impl Redis {
    /// Applies one record of the file at instant `now`: a store whose expiry
    /// has passed removes the key instead.
    pub fn replay_record(&mut self, rec: &AofRecord, now: Timestamp)
        requires
            old(self).wf(),
        ensures
            final(self).wf(),
            final(self)@ == replay_step(old(self)@, record_meaning(*rec), now),
    {
        match rec {
            AofRecord::Store { key, value, expires_at } => {
                let exp = *expires_at;
                if exp > now || exp == 0 {
                    let ttl = if exp > 0 {
                        exp - now
                    } else {
                        0
                    };
                    self.set_after_at(key.as_str(), value.as_str(), ttl, now);
                    assert(deadline_after(ttl, now) == exp);
                } else {
                    self.del(key.as_str());
                }
            },
            AofRecord::Remove { key } => {
                self.del(key.as_str());
            },
        }
    }

    /// Replays the text of a file line by line at instant `now`, skipping
    /// lines that hold no record; returns how many non-empty lines it skipped.
    pub fn replay_aof(&mut self, text: &str, now: Timestamp) -> (r: usize)
        requires
            old(self).wf(),
        ensures
            final(self).wf(),
            final(self)@ == replay_lines(old(self)@, split(text@, '\n'), now),
            r == skipped_count(split(text@, '\n')),
    {
        let lines = split_at_char(text, '\n');
        let ghost ls = split(text@, '\n');
        let mut skipped: usize = 0;
        let mut i: usize = 0;
        assert(ls.take(0) =~= Seq::<Seq<char>>::empty());
        while i < lines.len()
            invariant
                self.wf(),
                lines@.map_values(|x: String| x@) == ls,
                i <= lines@.len(),
                skipped <= i,
                self@ == replay_lines(old(self)@, ls.take(i as int), now),
                skipped == skipped_count(ls.take(i as int)),
            decreases lines@.len() - i,
        {
            let line = &lines[i];
            assert(line@ == ls[i as int]);
            assert(ls.take(i + 1).drop_last() =~= ls.take(i as int));
            match parse_aof_line(line.as_str()) {
                Ok(rec) => {
                    self.replay_record(&rec, now);
                },
                Err(_) => {
                    if !line.as_str().is_empty() {
                        skipped += 1;
                    }
                },
            }
            i += 1;
        }
        assert(ls.take(i as int) =~= ls);
        skipped
    }
}

pub proof fn lemma_split_concat(x: Seq<char>, y: Seq<char>, sep: char)
    ensures
        split(x.push(sep) + y, sep) == split(x, sep) + split(y, sep),
    decreases y.len(),
{
    if y.len() == 0 {
        assert(x.push(sep) + y =~= x.push(sep));
        assert(x.push(sep).drop_last() =~= x);
        assert(split(x, sep) + split(y, sep) =~= split(x, sep).push(Seq::empty()));
    } else {
        let y0 = y.drop_last();
        lemma_split_concat(x, y0, sep);
        lemma_split_nonempty(y0, sep);
        assert((x.push(sep) + y).drop_last() =~= x.push(sep) + y0);
        assert((x.push(sep) + y).last() == y.last());
        assert(split(x.push(sep) + y, sep) =~= split(x, sep) + split(y, sep));
    }
}

pub proof fn lemma_split_nonempty(s: Seq<char>, sep: char)
    ensures
        split(s, sep).len() >= 1,
    decreases s.len(),
{
    if s.len() > 0 {
        lemma_split_nonempty(s.drop_last(), sep);
    }
}

/// A piece without separators stays whole.
pub proof fn lemma_split_single(w: Seq<char>, sep: char)
    requires
        !w.contains(sep),
    ensures
        split(w, sep) == seq![w],
    decreases w.len(),
{
    if w.len() > 0 {
        assert(!w.drop_last().contains(sep)) by {
            if w.drop_last().contains(sep) {
                let i = choose|i: int| 0 <= i < w.drop_last().len() && w.drop_last()[i] == sep;
                assert(w[i] == sep);
            }
        }
        lemma_split_single(w.drop_last(), sep);
        assert(w.last() != sep) by {
            assert(w[w.len() - 1] == w.last());
        }
        assert(w.drop_last().push(w.last()) =~= w);
        assert(seq![w.drop_last()].update(0, w.drop_last().push(w.last())) =~= seq![w]);
    } else {
        assert(w =~= Seq::<char>::empty());
    }
}

/// The decimal rendering of `n` reads back as `n`.
pub proof fn lemma_dec_str_reads_back(n: nat)
    ensures
        dec_str(n).len() > 0,
        forall|i: int| 0 <= i < dec_str(n).len() ==> is_digit(#[trigger] dec_str(n)[i]),
        digits_value(dec_str(n)) == n,
    decreases n,
{
    if n < 10 {
        lemma_digit_char(n);
        assert(dec_str(n).drop_last() =~= Seq::<char>::empty());
        assert(dec_str(n).last() == digit_char(n));
        assert(digits_value(Seq::<char>::empty()) == 0);
        assert(digits_value(dec_str(n)) == digits_value(Seq::<char>::empty()) * 10 + digit_value(digit_char(n)));
    } else {
        lemma_dec_str_reads_back(n / 10);
        lemma_digit_char(n % 10);
        let p = dec_str(n / 10);
        assert(dec_str(n).drop_last() =~= p);
        assert(dec_str(n).last() == digit_char(n % 10));
        assert(digits_value(dec_str(n)) == digits_value(p) * 10 + digit_value(digit_char(n % 10)));
        assert(n == (n / 10) * 10 + n % 10);
        assert forall|i: int| 0 <= i < dec_str(n).len() implies is_digit(#[trigger] dec_str(n)[i]) by {
            if i < p.len() {
                assert(dec_str(n)[i] == p[i]);
            }
        }
    }
}

proof fn lemma_digit_char(d: nat)
    requires
        d < 10,
    ensures
        is_digit(digit_char(d)),
        digit_value(digit_char(d)) == d,
{
    let ds = seq!['0', '1', '2', '3', '4', '5', '6', '7', '8', '9'];
    assert(ds[0] == '0' && ds[1] == '1' && ds[2] == '2' && ds[3] == '3' && ds[4] == '4');
    assert(ds[5] == '5' && ds[6] == '6' && ds[7] == '7' && ds[8] == '8' && ds[9] == '9');
}

proof fn lemma_dec_str_parses(n: nat)
    requires
        n <= u128::MAX,
    ensures
        parse_unsigned(dec_str(n), u128::MAX as nat) == Some(n),
        !dec_str(n).contains(' '),
        !dec_str(n).contains('\n'),
{
    lemma_dec_str_reads_back(n);
    let d = dec_str(n);
    assert(is_digit(d[0]));
    assert(unsigned_digits(d) == d);
    assert(!d.contains(' ')) by {
        if d.contains(' ') {
            let i = choose|i: int| 0 <= i < d.len() && d[i] == ' ';
            assert(is_digit(d[i]));
        }
    }
    assert(!d.contains('\n')) by {
        if d.contains('\n') {
            let i = choose|i: int| 0 <= i < d.len() && d[i] == '\n';
            assert(is_digit(d[i]));
        }
    }
}

/// A run of non-whitespace ending a text keeps the token list non-empty.
pub proof fn lemma_tokens_nonempty(s: Seq<char>)
    requires
        s.len() > 0,
        !is_blank(s.last()),
    ensures
        tokens(s).len() > 0,
    decreases s.len(),
{
    if s.len() >= 2 && !is_blank(s[s.len() - 2]) {
        let p = s.drop_last();
        assert(p.last() == s[s.len() - 2]);
        lemma_tokens_nonempty(p);
    }
}

/// Whitespace between two texts separates their tokens.
pub proof fn lemma_tokens_concat(x: Seq<char>, y: Seq<char>)
    ensures
        tokens(x.push(' ') + y) == tokens(x) + tokens(y),
    decreases y.len(),
{
    let z = x.push(' ') + y;
    if y.len() == 0 {
        assert(z =~= x.push(' '));
        assert(x.push(' ').drop_last() =~= x);
        assert(tokens(x) + tokens(y) =~= tokens(x));
    } else {
        let y0 = y.drop_last();
        let c = y.last();
        lemma_tokens_concat(x, y0);
        assert(z.drop_last() =~= x.push(' ') + y0);
        assert(z.last() == c);
        if !is_blank(c) {
            if y0.len() > 0 && !is_blank(y0.last()) {
                lemma_tokens_nonempty(y0);
                assert(z[z.len() - 2] == y0.last());
                assert(y[y.len() - 2] == y0.last());
                assert(tokens(z) =~= tokens(x) + tokens(y));
            } else {
                if y0.len() > 0 {
                    assert(z[z.len() - 2] == y0.last());
                    assert(y[y.len() - 2] == y0.last());
                } else {
                    assert(z[z.len() - 2] == ' ');
                }
                assert(tokens(z) =~= tokens(x) + tokens(y));
            }
        }
    }
}

/// A non-empty text without whitespace is one token.
pub proof fn lemma_tokens_single(w: Seq<char>)
    requires
        w.len() > 0,
        no_blank(w),
    ensures
        tokens(w) == seq![w],
    decreases w.len(),
{
    let p = w.drop_last();
    assert(!is_blank(w[w.len() - 1]));
    if p.len() > 0 {
        assert(no_blank(p)) by {
            assert forall|i: int| 0 <= i < p.len() implies !is_blank(#[trigger] p[i]) by {
                assert(p[i] == w[i]);
            }
        }
        lemma_tokens_single(p);
        assert(!is_blank(w[w.len() - 2]));
        assert(p.push(w.last()) =~= w);
        assert(seq![p].last() == p);
        assert(seq![p].len() - 1 == 0);
        assert(seq![p].update(0, p.push(w.last())) =~= seq![w]);
    } else {
        assert(tokens(p) == Seq::<Seq<char>>::empty());
        assert(w =~= seq![w.last()]);
        assert(Seq::<Seq<char>>::empty().push(seq![w.last()]) =~= seq![w]);
    }
}

proof fn lemma_digits_no_blank(d: Seq<char>)
    requires
        forall|i: int| 0 <= i < d.len() ==> is_digit(#[trigger] d[i]),
    ensures
        no_blank(d),
{
    assert forall|i: int| 0 <= i < d.len() implies !is_blank(#[trigger] d[i]) by {
        assert(is_digit(d[i]));
    }
}

/// A logged store reads back, without its newline, as that store, where
/// key and value are non-empty and hold no whitespace.
pub proof fn lemma_set_line_reads_back(key: Seq<char>, value: Seq<char>, exp: u128)
    requires
        key.len() > 0,
        value.len() > 0,
        no_blank(key),
        no_blank(value),
    ensures
        line_meaning(set_line(key, value, exp as nat).drop_last()) == LineMeaning::Store(key, value, exp as nat),
{
    let d = dec_str(exp as nat);
    lemma_dec_str_parses(exp as nat);
    let verb = seq!['S', 'E', 'T'];
    let line = set_line(key, value, exp as nat).drop_last();
    assert(line =~= verb.push(' ') + (key.push(' ') + (value.push(' ') + d)));
    lemma_dec_str_reads_back(exp as nat);
    lemma_digits_no_blank(d);
    lemma_tokens_concat(verb, key.push(' ') + (value.push(' ') + d));
    lemma_tokens_concat(key, value.push(' ') + d);
    lemma_tokens_concat(value, d);
    lemma_tokens_single(verb);
    lemma_tokens_single(key);
    lemma_tokens_single(value);
    lemma_tokens_single(d);
    assert(tokens(line) =~= seq![verb, key, value, d]);
}

/// A logged removal reads back, without its newline, as that removal,
/// where the key is non-empty and holds no whitespace.
pub proof fn lemma_del_line_reads_back(key: Seq<char>)
    requires
        key.len() > 0,
        no_blank(key),
    ensures
        line_meaning(del_line(key).drop_last()) == LineMeaning::Remove(key),
{
    let verb = seq!['D', 'E', 'L'];
    let z = seq!['0'];
    lemma_dec_str_parses(0);
    assert(dec_str(0) =~= z);
    let line = del_line(key).drop_last();
    assert(line =~= verb.push(' ') + (key.push(' ') + (z.push(' ') + z)));
    lemma_tokens_concat(verb, key.push(' ') + (z.push(' ') + z));
    lemma_tokens_concat(key, z.push(' ') + z);
    lemma_tokens_concat(z, z);
    lemma_tokens_single(verb);
    lemma_tokens_single(key);
    lemma_tokens_single(z);
    assert(tokens(line) =~= seq![verb, key, z, z]);
    assert(verb != seq!['S', 'E', 'T']) by {
        assert(verb[0] != seq!['S', 'E', 'T'][0]);
    }
}

pub proof fn lemma_replay_concat(v: RedisView, a: Seq<Seq<char>>, b: Seq<Seq<char>>, now: u128)
    ensures
        replay_lines(v, a + b, now) == replay_lines(replay_lines(v, a, now), b, now),
    decreases b.len(),
{
    if b.len() == 0 {
        assert(a + b =~= a);
    } else {
        lemma_replay_concat(v, a, b.drop_last(), now);
        assert((a + b).drop_last() =~= a + b.drop_last());
        assert((a + b).last() == b.last());
    }
}

proof fn lemma_concat_lacks(a: Seq<char>, b: Seq<char>, c: char)
    requires
        !a.contains(c),
        !b.contains(c),
    ensures
        !(a + b).contains(c),
{
    if (a + b).contains(c) {
        let i = choose|i: int| 0 <= i < (a + b).len() && (a + b)[i] == c;
        if i < a.len() {
            assert(a[i] == c);
        } else {
            assert(b[i - a.len()] == c);
        }
    }
}

proof fn lemma_lacks(s: Seq<char>, c: char)
    requires
        forall|i: int| 0 <= i < s.len() ==> s[i] != c,
    ensures
        !s.contains(c),
{
}

/// A cold start that replays a file ending in a logged store leaves the key
/// holding the stored value and expiry, unless that expiry has passed; for
/// a non-empty key and value without whitespace.
pub proof fn lemma_replay_keeps_last_store(
    v: RedisView,
    text: Seq<char>,
    key: Seq<char>,
    value: Seq<char>,
    exp: u128,
    now: u128,
)
    requires
        text.len() == 0 || text.last() == '\n',
        key.len() > 0,
        value.len() > 0,
        no_blank(key),
        no_blank(value),
        exp == 0 || exp > now,
    ensures
        ({
            let after = replay_lines(v, split(text + set_line(key, value, exp as nat), '\n'), now);
            &&& after.kvs.contains_key(key)
            &&& after.kvs[key] == (RecordView { value, expires_at: expiry_of(exp) })
        }),
{
    let full = set_line(key, value, exp as nat);
    let l = full.drop_last();
    assert(full =~= l.push('\n'));
    lemma_set_line_reads_back(key, value, exp);
    lemma_dec_str_parses(exp as nat);
    let d = dec_str(exp as nat);
    let sp = seq![' '];
    lemma_lacks(key, '\n');
    lemma_lacks(value, '\n');
    lemma_lacks(seq!['S', 'E', 'T', ' '], '\n');
    lemma_lacks(sp, '\n');
    lemma_concat_lacks(seq!['S', 'E', 'T', ' '], key, '\n');
    lemma_concat_lacks(seq!['S', 'E', 'T', ' '] + key, sp, '\n');
    lemma_concat_lacks(seq!['S', 'E', 'T', ' '] + key + sp, value, '\n');
    lemma_concat_lacks(seq!['S', 'E', 'T', ' '] + key + sp + value, sp, '\n');
    lemma_concat_lacks(seq!['S', 'E', 'T', ' '] + key + sp + value + sp, d, '\n');
    assert(l =~= seq!['S', 'E', 'T', ' '] + key + sp + value + sp + d);
    lemma_split_single(l, '\n');
    let empty = Seq::<char>::empty();
    lemma_split_concat(l, empty, '\n');
    assert(l.push('\n') + empty =~= full);
    assert(split(empty, '\n') == seq![empty]);
    assert(split(full, '\n') =~= seq![l, empty]);
    assert(tokens(empty) == Seq::<Seq<char>>::empty());
    assert(line_meaning(empty) is Invalid);
    let tail = seq![l, empty];
    assert(tail.drop_last() =~= seq![l]);
    assert(seq![l].drop_last() =~= Seq::<Seq<char>>::empty());
    let w = if text.len() == 0 {
        v
    } else {
        replay_lines(v, split(text.drop_last(), '\n'), now)
    };
    assert(replay_lines(w, seq![l], now) == replay_step(
        replay_lines(w, Seq::empty(), now),
        line_meaning(l),
        now,
    ));
    assert(replay_lines(w, tail, now) == replay_step(
        replay_lines(w, seq![l], now),
        line_meaning(empty),
        now,
    ));
    if text.len() == 0 {
        assert(text + full =~= full);
    } else {
        let t = text.drop_last();
        assert(text =~= t.push('\n'));
        lemma_split_concat(t, full, '\n');
        assert(t.push('\n') + full =~= text + full);
        lemma_replay_concat(v, split(t, '\n'), tail, now);
    }
}

/// The longest time, in milliseconds, a buffered line waits for a flush
/// while more lines arrive.
pub const FLUSH_INTERVAL_MS: u128 = 1000;

/// The message that makes the writer flush before the process stops.
pub const SHUTDOWN_SENTINEL: &'static str = "SHUTDOWN";

/// Milliseconds from `since` to `now`, `0` for a clock that went back.
pub open spec fn elapsed(since: u128, now: u128) -> u128 {
    if now >= since {
        (now - since) as u128
    } else {
        0
    }
}

/// The lines of `v` as plain text.
pub open spec fn lines_view(v: Seq<String>) -> Seq<Seq<char>> {
    v.map_values(|x: String| x@)
}

/// The writer's buffer: lines not yet written, and when it last flushed.
pub struct AofBuffer {
    lines: Vec<String>,
    last_flush: Timestamp,
}

pub ghost struct AofBufferView {
    pub pending: Seq<Seq<char>>,
    pub last_flush: u128,
}

impl View for AofBuffer {
    type V = AofBufferView;

    closed spec fn view(&self) -> AofBufferView {
        AofBufferView { pending: lines_view(self.lines@), last_flush: self.last_flush }
    }
}

impl AofBuffer {
    /// An empty buffer whose interval starts at `now`.
    pub fn new(now: Timestamp) -> (r: Self)
        ensures
            r@.pending == Seq::<Seq<char>>::empty(),
            r@.last_flush == now,
    {
        let r = AofBuffer { lines: Vec::new(), last_flush: now };
        assert(r@.pending =~= Seq::<Seq<char>>::empty());
        r
    }

    /// Hands out every buffered line, in order, and restarts the interval.
    fn flush(&mut self, now: Timestamp) -> (r: Vec<String>)
        ensures
            lines_view(r@) == old(self)@.pending,
            final(self)@.pending == Seq::<Seq<char>>::empty(),
            final(self)@.last_flush == now,
    {
        let r = self.lines.split_off(0);
        assert(r@ =~= old(self).lines@);
        self.last_flush = now;
        assert(self@.pending =~= Seq::<Seq<char>>::empty());
        r
    }

    /// A message came through the writer's channel at `now`. The sentinel
    /// flushes; a line is buffered, and flushes the buffer once the interval
    /// since the last flush exceeds `FLUSH_INTERVAL_MS`. Returns the lines to
    /// write now, in order.
    pub fn on_message(&mut self, msg: String, now: Timestamp) -> (r: Vec<String>)
        ensures
            msg@ == SHUTDOWN_SENTINEL@ ==> lines_view(r@) == old(self)@.pending
                && final(self)@ == (AofBufferView { pending: Seq::empty(), last_flush: now }),
            msg@ != SHUTDOWN_SENTINEL@ && elapsed(old(self)@.last_flush, now) > FLUSH_INTERVAL_MS
                ==> lines_view(r@) == old(self)@.pending.push(msg@) && final(self)@ == (AofBufferView {
                pending: Seq::empty(),
                last_flush: now,
            }),
            msg@ != SHUTDOWN_SENTINEL@ && elapsed(old(self)@.last_flush, now) <= FLUSH_INTERVAL_MS
                ==> r@.len() == 0 && final(self)@ == (AofBufferView {
                pending: old(self)@.pending.push(msg@),
                last_flush: old(self)@.last_flush,
            }),
    {
        let sentinel = SHUTDOWN_SENTINEL.to_owned();
        if msg == sentinel {
            return self.flush(now);
        }
        let ghost before = self.lines@;
        self.lines.push(msg);
        assert(lines_view(self.lines@) =~= lines_view(before).push(msg@));
        let since = if now >= self.last_flush {
            now - self.last_flush
        } else {
            0
        };
        if since > FLUSH_INTERVAL_MS {
            self.flush(now)
        } else {
            Vec::new()
        }
    }

    /// A timer fired at `now`: flushes once the interval since the last flush
    /// exceeds `FLUSH_INTERVAL_MS` and a line is waiting.
    pub fn on_tick(&mut self, now: Timestamp) -> (r: Vec<String>)
        ensures
            old(self)@.pending.len() > 0 && elapsed(old(self)@.last_flush, now) > FLUSH_INTERVAL_MS
                ==> lines_view(r@) == old(self)@.pending && final(self)@ == (AofBufferView {
                pending: Seq::empty(),
                last_flush: now,
            }),
            !(old(self)@.pending.len() > 0 && elapsed(old(self)@.last_flush, now) > FLUSH_INTERVAL_MS)
                ==> r@.len() == 0 && final(self)@ == old(self)@,
    {
        let since = if now >= self.last_flush {
            now - self.last_flush
        } else {
            0
        };
        if self.lines.len() > 0 && since > FLUSH_INTERVAL_MS {
            self.flush(now)
        } else {
            Vec::new()
        }
    }

    /// The channel closed at `now`: flushes whatever is buffered.
    pub fn on_idle(&mut self, now: Timestamp) -> (r: Vec<String>)
        ensures
            lines_view(r@) == old(self)@.pending,
            final(self)@ == (AofBufferView { pending: Seq::empty(), last_flush: now }),
    {
        self.flush(now)
    }
}

} // verus!
