//! The log lines written while a migration runs: the time of a commit and the summary of
//! a commit, as `git log` shows them.

use vstd::prelude::*;
use crate::history::opt_view;
use crate::text::{chars_of, push_char};

verus! {

/// Whether `layout` is a chrono format string made of literal characters and the
/// specifiers `%Y`, `%m`, `%d`, `%H`, `%M` and `%S` only: every `%` is followed by one of
/// these letters. Chrono formats a UTC date and time in such a layout without error.
pub open spec fn simple_layout(layout: Seq<char>) -> bool {
    forall|i: int|
        0 <= i < layout.len() && #[trigger] layout[i] == '%' ==> i + 1 < layout.len() && (
        layout[i + 1] == 'Y' || layout[i + 1] == 'm' || layout[i + 1] == 'd' || layout[i + 1]
            == 'H' || layout[i + 1] == 'M' || layout[i + 1] == 'S')
}

/// The text that chrono writes for the UTC date and time `seconds` after the Unix epoch,
/// in the format `layout`; `None` where chrono cannot represent that instant.
pub uninterp spec fn utc_date_time_text(seconds: i64, layout: Seq<char>) -> Option<Seq<char>>;

/// Formats an instant as a UTC date and time.
///
/// Trusted: calls `chrono::DateTime::from_timestamp(seconds, 0)`, which chrono documents
/// as returning `None` on an out-of-range number of seconds, and formats the instant it
/// returns with `format(layout)`. Claimed: the result is `utc_date_time_text(seconds,
/// layout)`, a function of its arguments alone (the time zone is UTC and chrono's
/// formatting uses no locale); what that text is, is left to chrono. The layout is
/// required to be simple, so that writing the formatted value cannot fail.
#[verifier::external_body]
fn format_utc(seconds: i64, layout: &str) -> (r: Option<String>)
    requires
        simple_layout(layout@),
    ensures
        opt_view(r) == utc_date_time_text(seconds, layout@),
{
    match chrono::DateTime::from_timestamp(seconds, 0) {
        Some(t) => Some(t.format(layout).to_string()),
        None => None,
    }
}

/// The layout of dates in the log: `%Y-%m-%d %H:%M:%S` (see `law_log_date_layout`).
pub open spec fn log_date_layout() -> Seq<char> {
    seq!['%', 'Y', '-', '%', 'm', '-', '%', 'd', ' ', '%', 'H', ':', '%', 'M', ':', '%', 'S']
}

fn date_layout() -> (s: &'static str)
    ensures
        s@ == log_date_layout(),
        s@ == "%Y-%m-%d %H:%M:%S"@,
        simple_layout(s@),
{
    let s = "%Y-%m-%d %H:%M:%S";
    proof {
        reveal_strlit("%Y-%m-%d %H:%M:%S");
        assert(s@ =~= log_date_layout());
        let l = log_date_layout();
        assert forall|i: int| 0 <= i < l.len() && #[trigger] l[i] == '%' implies i + 1 < l.len() && (
        l[i + 1] == 'Y' || l[i + 1] == 'm' || l[i + 1] == 'd' || l[i + 1] == 'H' || l[i + 1]
            == 'M' || l[i + 1] == 'S') by {
            assert(i == 0 || i == 3 || i == 6 || i == 9 || i == 12 || i == 15);
        }
    }
    s
}

/// The text of a byte string read as UTF-8, each invalid sequence replaced by U+FFFD.
pub uninterp spec fn lossy_text(bytes: Seq<u8>) -> Seq<char>;

/// Decodes bytes as UTF-8, replacing invalid sequences.
///
/// Trusted: calls `String::from_utf8_lossy`, which std documents as decoding the bytes
/// and replacing each invalid sequence with U+FFFD; the result, a function of the bytes
/// alone, is named `lossy_text`.
#[verifier::external_body]
fn decode_lossy(bytes: &[u8]) -> (s: String)
    ensures
        s@ == lossy_text(bytes@),
{
    String::from_utf8_lossy(bytes).into_owned()
}

/// The decimal digit `d`.
pub open spec fn digit_char(d: nat) -> char {
    if d == 0 {
        '0'
    } else if d == 1 {
        '1'
    } else if d == 2 {
        '2'
    } else if d == 3 {
        '3'
    } else if d == 4 {
        '4'
    } else if d == 5 {
        '5'
    } else if d == 6 {
        '6'
    } else if d == 7 {
        '7'
    } else if d == 8 {
        '8'
    } else {
        '9'
    }
}

/// The decimal numeral of `n`, without leading zeros.
pub open spec fn decimal(n: nat) -> Seq<char>
    decreases n,
{
    if n < 10 {
        seq![digit_char(n)]
    } else {
        decimal(n / 10).push(digit_char(n % 10))
    }
}

/// `s` padded on the left with zeros to at least two characters, as `{:02}` writes.
pub open spec fn zero_pad2(s: Seq<char>) -> Seq<char> {
    if s.len() < 2 {
        seq!['0'] + s
    } else {
        s
    }
}

proof fn lemma_decimal_len(n: nat)
    ensures
        decimal(n).len() >= 1,
        decimal(n).len() < 2 <==> n < 10,
    decreases n,
{
    if n >= 10 {
        lemma_decimal_len(n / 10);
    }
}

fn digit(d: u32) -> (c: char)
    requires
        d < 10,
    ensures
        c == digit_char(d as nat),
{
    if d == 0 {
        '0'
    } else if d == 1 {
        '1'
    } else if d == 2 {
        '2'
    } else if d == 3 {
        '3'
    } else if d == 4 {
        '4'
    } else if d == 5 {
        '5'
    } else if d == 6 {
        '6'
    } else if d == 7 {
        '7'
    } else if d == 8 {
        '8'
    } else {
        '9'
    }
}

fn push_decimal(s: &mut String, n: u32)
    ensures
        final(s)@ == old(s)@ + decimal(n as nat),
    decreases n,
{
    if n >= 10 {
        push_decimal(s, n / 10);
    }
    push_char(s, digit(n % 10));
    assert(s@ =~= old(s)@ + decimal(n as nat));
}

fn push_pad2(s: &mut String, n: u32)
    ensures
        final(s)@ == old(s)@ + zero_pad2(decimal(n as nat)),
{
    proof {
        lemma_decimal_len(n as nat);
    }
    if n < 10 {
        push_char(s, '0');
    }
    push_decimal(s, n);
    assert(s@ =~= old(s)@ + zero_pad2(decimal(n as nat)));
}

/// The magnitude of a time zone offset.
pub open spec fn offset_magnitude(offset: int) -> nat {
    if offset < 0 {
        (-offset) as nat
    } else {
        offset as nat
    }
}

/// The sign of a time zone offset.
pub open spec fn offset_sign(offset: int) -> char {
    if offset < 0 {
        '-'
    } else {
        '+'
    }
}

/// A time zone offset in minutes, written `±HHMM`.
pub open spec fn offset_text(offset: int) -> Seq<char> {
    seq![offset_sign(offset)] + zero_pad2(decimal(offset_magnitude(offset) / 60)) + zero_pad2(
        decimal(offset_magnitude(offset) % 60),
    )
}

/// The line that shows a commit time: `prefix`, the UTC date and time `date`, a space and
/// the author's time zone offset.
pub open spec fn time_line_of(prefix: Seq<char>, date: Seq<char>, offset: int) -> Seq<char> {
    prefix + date + seq![' '] + offset_text(offset)
}

/// Writes the line that shows a commit time: `prefix`, the UTC date and time `date` as
/// chrono writes it, a space, and the time zone offset `offset_minutes` as a sign, two
/// digits of hours and two of minutes.
pub fn render_time(prefix: &str, date: &str, offset_minutes: i32) -> (r: String)
    requires
        offset_minutes > i32::MIN,
    ensures
        r@ == time_line_of(prefix@, date@, offset_minutes as int),
{
    let (magnitude, sign): (u32, char) = if offset_minutes < 0 {
        ((-offset_minutes) as u32, '-')
    } else {
        (offset_minutes as u32, '+')
    };
    let mut r = String::from_str(prefix);
    r.append(date);
    push_char(&mut r, ' ');
    push_char(&mut r, sign);
    push_pad2(&mut r, magnitude / 60);
    push_pad2(&mut r, magnitude % 60);
    assert(r@ =~= time_line_of(prefix@, date@, offset_minutes as int));
    r
}

/// Writes the line that shows the time `seconds` after the Unix epoch in a time zone
/// `offset_minutes` east of UTC: `prefix`, the UTC date and time in the layout
/// `%Y-%m-%d %H:%M:%S`, and the offset.
/// Returns `None` where chrono cannot represent the instant.
pub fn time_line(prefix: &str, seconds: i64, offset_minutes: i32) -> (r: Option<String>)
    requires
        offset_minutes > i32::MIN,
    ensures
        match utc_date_time_text(seconds, log_date_layout()) {
            Some(date) => r is Some && r->0@ == time_line_of(prefix@, date, offset_minutes as int),
            None => r is None,
        },
{
    match format_utc(seconds, date_layout()) {
        Some(date) => Some(render_time(prefix, date.as_str(), offset_minutes)),
        None => None,
    }
}

/// A line without its line feed: a carriage return before the line feed is dropped too.
pub open spec fn strip_cr(line: Seq<char>) -> Seq<char> {
    if line.len() > 0 && line.last() == '\r' {
        line.drop_last()
    } else {
        line
    }
}

/// The lines of `s` read so far and the line being read, after reading all of `s`.
pub open spec fn line_scan(s: Seq<char>) -> (Seq<Seq<char>>, Seq<char>)
    decreases s.len(),
{
    if s.len() == 0 {
        (Seq::empty(), Seq::empty())
    } else {
        let (done, current) = line_scan(s.drop_last());
        if s.last() == '\n' {
            (done.push(strip_cr(current)), Seq::empty())
        } else {
            (done, current.push(s.last()))
        }
    }
}

/// The lines of `s`, as `str::lines` yields them: split at each line feed, with a carriage
/// return before it dropped, the last line feed optional.
pub open spec fn lines_of(s: Seq<char>) -> Seq<Seq<char>> {
    let (done, current) = line_scan(s);
    if current.len() > 0 {
        done.push(current)
    } else {
        done
    }
}

/// Strings by their characters.
pub open spec fn texts(v: Seq<String>) -> Seq<Seq<char>> {
    v.map_values(|s: String| s@)
}

fn text_of(cs: &Vec<char>) -> (s: String)
    ensures
        s@ == cs@,
{
    let mut s = String::new();
    let mut i: usize = 0;
    while i < cs.len()
        invariant
            i <= cs@.len(),
            s@ == cs@.take(i as int),
        decreases cs@.len() - i,
    {
        push_char(&mut s, cs[i]);
        assert(cs@.take(i + 1) == cs@.take(i as int).push(cs@[i as int]));
        i = i + 1;
    }
    assert(cs@.take(cs@.len() as int) == cs@);
    s
}

/// Splits `s` into its lines, as `str::lines` does.
pub fn lines(s: &str) -> (r: Vec<String>)
    ensures
        texts(r@) == lines_of(s@),
{
    let cs = chars_of(s);
    let n = cs.len();
    let mut done: Vec<String> = Vec::new();
    let mut current: Vec<char> = Vec::new();
    let mut i: usize = 0;
    while i < n
        invariant
            n == cs@.len(),
            cs@ == s@,
            i <= n,
            (texts(done@), current@) == line_scan(s@.take(i as int)),
        decreases n - i,
    {
        let c = cs[i];
        assert(s@.take(i + 1).drop_last() == s@.take(i as int));
        assert(s@.take(i + 1).last() == c);
        if c == '\n' {
            if current.len() > 0 && current[current.len() - 1] == '\r' {
                current.pop();
            }
            let line = text_of(&current);
            done.push(line);
            current = Vec::new();
            assert(texts(done@) =~= line_scan(s@.take(i + 1)).0);
        } else {
            current.push(c);
        }
        i = i + 1;
    }
    assert(s@.take(n as int) == s@);
    if current.len() > 0 {
        let line = text_of(&current);
        done.push(line);
        assert(texts(done@) =~= lines_of(s@));
    }
    done
}

} // verus!

verus! {

/// What the log shows of a commit: its id in hex, the ids of its parents, its author's
/// name and email as stored, the author time (seconds after the Unix epoch and the time
/// zone offset in minutes) and the message as stored.
#[derive(Debug)]
pub struct CommitRecord {
    pub id: String,
    pub parent_ids: Vec<String>,
    pub author_name: Vec<u8>,
    pub author_email: Vec<u8>,
    pub seconds: i64,
    pub offset_minutes: i32,
    pub message: Vec<u8>,
}

/// The first eight characters of a commit id, all of it if shorter: what `{:.8}` writes.
pub open spec fn short_id(id: Seq<char>) -> Seq<char> {
    if id.len() <= 8 {
        id
    } else {
        id.take(8)
    }
}

/// The short ids of `parents`, each after a space.
pub open spec fn parent_list(parents: Seq<Seq<char>>) -> Seq<char>
    decreases parents.len(),
{
    if parents.len() == 0 {
        Seq::empty()
    } else {
        parent_list(parents.drop_last()) + seq![' '] + short_id(parents.last())
    }
}

/// The line that lists the parents of a merge commit; nothing for another commit.
pub open spec fn merge_line(parents: Seq<Seq<char>>) -> Seq<char> {
    if parents.len() > 1 {
        "Merge:"@ + parent_list(parents) + seq!['\n']
    } else {
        Seq::empty()
    }
}

/// `lines`, each indented by four spaces and ended by a line feed.
pub open spec fn indented(lines: Seq<Seq<char>>) -> Seq<char>
    decreases lines.len(),
{
    if lines.len() == 0 {
        Seq::empty()
    } else {
        indented(lines.drop_last()) + "    "@ + lines.last() + seq!['\n']
    }
}

/// A signature as git2 shows it: the name, then the email in angle brackets.
pub open spec fn signature_text(name: Seq<char>, email: Seq<char>) -> Seq<char> {
    name + seq![' ', '<'] + email + seq!['>']
}

/// The summary of a commit as the log shows it: the id, the parents of a merge, the
/// author, the time line, a blank line, the message indented, and a blank line.
pub open spec fn commit_text(
    id: Seq<char>,
    parents: Seq<Seq<char>>,
    author: Seq<char>,
    time: Seq<char>,
    message: Seq<char>,
) -> Seq<char> {
    "commit "@ + id + seq!['\n'] + merge_line(parents) + "Author: "@ + author + seq!['\n'] + time
        + seq!['\n', '\n'] + indented(lines_of(message)) + seq!['\n']
}

/// The prefix of the time line of a commit summary.
pub open spec fn date_prefix() -> Seq<char> {
    "Date:   "@
}

/// The summary of `c` whose author time chrono writes as `date`.
pub open spec fn record_text(c: &CommitRecord, date: Seq<char>) -> Seq<char> {
    commit_text(
        c.id@,
        texts(c.parent_ids@),
        signature_text(lossy_text(c.author_name@), lossy_text(c.author_email@)),
        time_line_of(date_prefix(), date, c.offset_minutes as int),
        lossy_text(c.message@),
    )
}

fn push_short_id(s: &mut String, id: &str)
    ensures
        final(s)@ == old(s)@ + short_id(id@),
{
    let cs = chars_of(id);
    let n = if cs.len() <= 8 { cs.len() } else { 8 };
    let mut i: usize = 0;
    while i < n
        invariant
            cs@ == id@,
            n <= cs@.len(),
            n == if id@.len() <= 8 { id@.len() } else { 8 },
            i <= n,
            s@ == old(s)@ + id@.take(i as int),
        decreases n - i,
    {
        push_char(s, cs[i]);
        assert(id@.take(i + 1) == id@.take(i as int).push(id@[i as int]));
        i = i + 1;
    }
    assert(id@.take(id@.len() as int) == id@);
}

/// Writes the summary of commit `c`, as the log shows it, given the text `date` that
/// chrono writes for its author time: `commit <id>`; for a merge, `Merge:` and the first
/// eight characters of each parent id; `Author: <name> <<email>>`; `Date:   `, the date
/// and the time zone offset; a blank line; each line of the message indented by four
/// spaces; and a blank line. Name, email and message are read as UTF-8, invalid
/// sequences replaced.
pub fn render_commit(c: &CommitRecord, date: &str) -> (r: String)
    requires
        c.offset_minutes > i32::MIN,
    ensures
        r@ == record_text(c, date@),
{
    let mut r = String::from_str("commit ");
    r.append(c.id.as_str());
    push_char(&mut r, '\n');
    let ghost before_merge = r@;
    let np = c.parent_ids.len();
    if np > 1 {
        r.append("Merge:");
        let mut i: usize = 0;
        while i < np
            invariant
                np == c.parent_ids@.len(),
                i <= np,
                r@ == before_merge + "Merge:"@ + parent_list(texts(c.parent_ids@).take(i as int)),
            decreases np - i,
        {
            push_char(&mut r, ' ');
            push_short_id(&mut r, c.parent_ids[i].as_str());
            let ghost ps = texts(c.parent_ids@);
            assert(ps.take(i + 1).drop_last() == ps.take(i as int));
            assert(ps.take(i + 1).last() == c.parent_ids@[i as int]@);
            i = i + 1;
        }
        push_char(&mut r, '\n');
        assert(texts(c.parent_ids@).take(np as int) == texts(c.parent_ids@));
    }
    assert(r@ =~= "commit "@ + c.id@ + seq!['\n'] + merge_line(texts(c.parent_ids@)));
    r.append("Author: ");
    let name = decode_lossy(c.author_name.as_slice());
    let email = decode_lossy(c.author_email.as_slice());
    r.append(name.as_str());
    push_char(&mut r, ' ');
    push_char(&mut r, '<');
    r.append(email.as_str());
    push_char(&mut r, '>');
    push_char(&mut r, '\n');
    let time = render_time("Date:   ", date, c.offset_minutes);
    r.append(time.as_str());
    push_char(&mut r, '\n');
    push_char(&mut r, '\n');
    let ghost before_body = r@;
    let message = decode_lossy(c.message.as_slice());
    let ls = lines(message.as_str());
    let nl = ls.len();
    let mut j: usize = 0;
    while j < nl
        invariant
            nl == ls@.len(),
            j <= nl,
            r@ == before_body + indented(texts(ls@).take(j as int)),
        decreases nl - j,
    {
        r.append("    ");
        r.append(ls[j].as_str());
        push_char(&mut r, '\n');
        let ghost tl = texts(ls@);
        assert(tl.take(j + 1).drop_last() == tl.take(j as int));
        assert(tl.take(j + 1).last() == ls@[j as int]@);
        assert(r@ =~= before_body + indented(tl.take(j + 1)));
        j = j + 1;
    }
    assert(texts(ls@).take(nl as int) == texts(ls@));
    push_char(&mut r, '\n');
    assert(r@ =~= record_text(c, date@));
    r
}

/// Writes the summary of commit `c` as the log shows it (see [`render_commit`]), or
/// `None` where chrono cannot represent its author time.
pub fn commit_log(c: &CommitRecord) -> (r: Option<String>)
    requires
        c.offset_minutes > i32::MIN,
    ensures
        match utc_date_time_text(c.seconds, log_date_layout()) {
            Some(date) => r is Some && r->0@ == record_text(c, date),
            None => r is None,
        },
{
    match format_utc(c.seconds, date_layout()) {
        Some(date) => Some(render_commit(c, date.as_str())),
        None => None,
    }
}

} // verus!

verus! {

/// Dates in the log are written in the layout `%Y-%m-%d %H:%M:%S`: year, month, day,
/// then hours, minutes and seconds, in that order.
pub proof fn law_log_date_layout()
    ensures
        log_date_layout() == "%Y-%m-%d %H:%M:%S"@,
        simple_layout(log_date_layout()),
{
    reveal_strlit("%Y-%m-%d %H:%M:%S");
    assert(log_date_layout() =~= "%Y-%m-%d %H:%M:%S"@);
    let l = log_date_layout();
    assert forall|i: int| 0 <= i < l.len() && #[trigger] l[i] == '%' implies i + 1 < l.len() && (
    l[i + 1] == 'Y' || l[i + 1] == 'm' || l[i + 1] == 'd' || l[i + 1] == 'H' || l[i + 1]
        == 'M' || l[i + 1] == 'S') by {
        assert(i == 0 || i == 3 || i == 6 || i == 9 || i == 12 || i == 15);
    }
}

/// The short form of a commit id is its first eight characters, or all of it if shorter.
pub proof fn law_short_id(id: Seq<char>)
    ensures
        id.len() >= 8 ==> short_id(id).len() == 8 && short_id(id) == id.take(8),
        id.len() < 8 ==> short_id(id) == id,
{
}

/// The list of parents on a merge line holds, for each parent in order, a space and the
/// first eight characters of its id (all of it if shorter).
pub proof fn law_parent_list(parents: Seq<Seq<char>>)
    ensures
        parent_list(parents).len() == parents.len() * 9 - short_shortfall(parents),
        forall|k: int| #![trigger parents[k]]
            0 <= k < parents.len() && (forall|j: int| 0 <= j < parents.len() ==> #[trigger] parents[j].len() >= 8)
                ==> parent_list(parents).subrange(9 * k, 9 * k + 9) == seq![' '] + parents[k].take(8),
    decreases parents.len(),
{
    if parents.len() > 0 {
        let init = parents.drop_last();
        law_parent_list(init);
        assert forall|j: int| 0 <= j < init.len() implies init[j] == parents[j] by {}
        if forall|j: int| 0 <= j < parents.len() ==> #[trigger] parents[j].len() >= 8 {
            assert(forall|j: int| 0 <= j < init.len() ==> #[trigger] init[j].len() >= 8) by {
                assert forall|j: int| 0 <= j < init.len() implies #[trigger] init[j].len() >= 8 by {
                    assert(init[j] == parents[j]);
                }
            }
            assert(short_shortfall(init) == 0) by {
                lemma_no_shortfall(init);
            }
            assert forall|k: int| #![trigger parents[k]] 0 <= k < parents.len() implies parent_list(parents).subrange(
                9 * k,
                9 * k + 9,
            ) == seq![' '] + parents[k].take(8) by {
                let pl = parent_list(init);
                assert(parents.last().len() >= 8);
                if k < init.len() {
                    assert(init[k] == parents[k]);
                    assert(pl.subrange(9 * k, 9 * k + 9) == seq![' '] + init[k].take(8));
                    assert(parent_list(parents).subrange(9 * k, 9 * k + 9) =~= pl.subrange(9 * k, 9 * k + 9));
                } else {
                    assert(parent_list(parents).subrange(9 * k, 9 * k + 9) =~= seq![' '] + parents[k].take(8));
                }
            }
        }
    }
}

/// How many characters the short ids of `parents` fall short of eight.
pub open spec fn short_shortfall(parents: Seq<Seq<char>>) -> int
    decreases parents.len(),
{
    if parents.len() == 0 {
        0
    } else {
        short_shortfall(parents.drop_last()) + (8 - short_id(parents.last()).len())
    }
}

proof fn lemma_no_shortfall(parents: Seq<Seq<char>>)
    requires
        forall|j: int| 0 <= j < parents.len() ==> #[trigger] parents[j].len() >= 8,
    ensures
        short_shortfall(parents) == 0,
    decreases parents.len(),
{
    if parents.len() > 0 {
        let init = parents.drop_last();
        assert forall|j: int| 0 <= j < init.len() implies #[trigger] init[j].len() >= 8 by {
            assert(init[j] == parents[j]);
        }
        lemma_no_shortfall(init);
    }
}

/// A commit summary begins with `commit <id>` and a line break. A commit with two or
/// more parents then has the line `Merge:` followed by a space and the short id of each
/// parent in turn; a commit with at most one parent has no such line, and its author
/// line follows at once.
pub proof fn law_merge_line(
    id: Seq<char>,
    parents: Seq<Seq<char>>,
    author: Seq<char>,
    time: Seq<char>,
    message: Seq<char>,
)
    ensures
        commit_text(id, parents, author, time, message).take(id.len() + 8int) == "commit "@ + id
            + seq!['\n'],
        parents.len() >= 2 ==> commit_text(id, parents, author, time, message).subrange(
            id.len() + 8int,
            id.len() + 8int + 6 + parent_list(parents).len() + 1,
        ) == "Merge:"@ + parent_list(parents) + seq!['\n'],
        parents.len() <= 1 ==> commit_text(id, parents, author, time, message).subrange(
            id.len() + 8int,
            id.len() + 16int,
        ) == "Author: "@,
{
    reveal_strlit("commit ");
    reveal_strlit("Merge:");
    reveal_strlit("Author: ");
    let t = commit_text(id, parents, author, time, message);
    let head = "commit "@ + id + seq!['\n'];
    assert(head.len() == id.len() + 8int);
    assert(t.take(id.len() + 8int) =~= head);
    if parents.len() >= 2 {
        let ml = "Merge:"@ + parent_list(parents) + seq!['\n'];
        assert(merge_line(parents) == ml);
        assert(t.subrange(id.len() + 8int, id.len() + 8int + ml.len()) =~= ml);
    } else {
        assert(merge_line(parents) =~= Seq::<char>::empty());
        assert(t.subrange(id.len() + 8int, id.len() + 16int) =~= "Author: "@);
    }
}


/// For `n < 100`, its two-digit form: the digit of its tens and the digit of its units.
proof fn lemma_pad2(n: nat)
    requires
        n < 100,
    ensures
        zero_pad2(decimal(n)) == seq![digit_char(n / 10), digit_char(n % 10)],
{
    if n < 10 {
        assert(zero_pad2(decimal(n)) =~= seq![digit_char(n / 10), digit_char(n % 10)]);
    } else {
        assert(decimal(n / 10) == seq![digit_char(n / 10)]);
        assert(decimal(n) =~= seq![digit_char(n / 10), digit_char(n % 10)]);
    }
}

/// A time zone offset of less than a hundred hours either way is written as its sign
/// (`-` west of UTC, `+` otherwise), two digits of whole hours, then two digits of the
/// remaining minutes.
pub proof fn law_offset_text(offset: int)
    requires
        -6000 < offset < 6000,
    ensures
        offset_text(offset) == seq![
            if offset < 0 { '-' } else { '+' },
            digit_char(offset_magnitude(offset) / 60 / 10),
            digit_char(offset_magnitude(offset) / 60 % 10),
            digit_char(offset_magnitude(offset) % 60 / 10),
            digit_char(offset_magnitude(offset) % 60 % 10),
        ],
        offset_magnitude(offset) == if offset < 0 { -offset } else { offset },
{
    let m = offset_magnitude(offset);
    lemma_pad2(m / 60);
    lemma_pad2(m % 60);
    assert(offset_text(offset) =~= seq![
        if offset < 0 { '-' } else { '+' },
        digit_char(m / 60 / 10),
        digit_char(m / 60 % 10),
        digit_char(m % 60 / 10),
        digit_char(m % 60 % 10),
    ]);
}

/// Lines, each followed by a line feed.
pub open spec fn line_text(lines: Seq<Seq<char>>) -> Seq<char>
    decreases lines.len(),
{
    if lines.len() == 0 {
        Seq::empty()
    } else {
        line_text(lines.drop_last()) + lines.last() + seq!['\n']
    }
}

proof fn lemma_line_scan(s: Seq<char>)
    requires
        !s.contains('\r'),
    ensures
        line_text(line_scan(s).0) + line_scan(s).1 == s,
        !line_scan(s).1.contains('\n'),
        forall|k: int| 0 <= k < line_scan(s).0.len() ==> !(#[trigger] line_scan(s).0[k]).contains('\n'),
        line_scan(s).1.len() == 0 ==> s.len() == 0 || s.last() == '\n',
    decreases s.len(),
{
    if s.len() > 0 {
        let p = s.drop_last();
        assert(!p.contains('\r')) by {
            if p.contains('\r') {
                let k = choose|k: int| 0 <= k < p.len() && p[k] == '\r';
                assert(s[k] == '\r');
            }
        }
        lemma_line_scan(p);
        let (done, cur) = line_scan(p);
        let c = s.last();
        assert(s =~= p.push(c));
        if c == '\n' {
            if cur.len() > 0 && cur.last() == '\r' {
                assert(p[p.len() - 1] == '\r');
            }
            assert(strip_cr(cur) == cur);
            let d2 = done.push(cur);
            assert(d2.drop_last() =~= done);
            assert(line_text(d2) + Seq::<char>::empty() =~= s);
            assert forall|k: int| 0 <= k < d2.len() implies !(#[trigger] d2[k]).contains('\n') by {
                if k < done.len() {
                    assert(d2[k] == done[k]);
                }
            }
        } else {
            let c2 = cur.push(c);
            assert(line_text(done) + c2 =~= s);
            assert(!c2.contains('\n')) by {
                if c2.contains('\n') {
                    let k = choose|k: int| 0 <= k < c2.len() && c2[k] == '\n';
                    if k < cur.len() {
                        assert(cur[k] == '\n');
                    }
                }
            }
        }
    }
}

/// Splitting a text without carriage returns into lines loses nothing but line feeds:
/// no line holds a line feed, and the lines, each followed by a line feed, give back
/// the text, with a line feed added at its end if it lacked one.
pub proof fn law_lines_of(s: Seq<char>)
    requires
        !s.contains('\r'),
    ensures
        forall|k: int| 0 <= k < lines_of(s).len() ==> !(#[trigger] lines_of(s)[k]).contains('\n'),
        line_text(lines_of(s)) == if s.len() > 0 && s.last() != '\n' {
            s.push('\n')
        } else {
            s
        },
{
    lemma_line_scan(s);
    let (done, cur) = line_scan(s);
    if cur.len() > 0 {
        let d2 = done.push(cur);
        assert(d2.drop_last() =~= done);
        assert(s.last() == cur.last());
        assert(line_text(d2) =~= s.push('\n'));
        assert forall|k: int| 0 <= k < d2.len() implies !(#[trigger] d2[k]).contains('\n') by {
            if k < done.len() {
                assert(d2[k] == done[k]);
            }
        }
    }
}

} // verus!
