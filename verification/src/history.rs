//! Commit messages: the trailer that records which origin commit a migrated commit came
//! from, how it is written, and how the last migrated origin commit is found again.

use vstd::prelude::*;
use crate::error::WorkflowError;
use crate::text::push_char;
use vstd::utf8::is_ascii_chars;
use crate::escape::{escape_message, escape_table, escaped, law_escape_round_trip, unescape_pair_list, unescape_pairs};

verus! {

/// The trailers, as (key, value) pairs in the order libgit2 lists them, that libgit2
/// finds in an ASCII commit message (`git_message_trailers`). On a message that is not
/// ASCII, libgit2 classifies bytes by the process's locale, so what it finds there is
/// not a function of the message, and nothing is claimed of it.
pub uninterp spec fn git_message_trailers(message: Seq<char>) -> Seq<(Seq<char>, Seq<char>)>;

/// A list of trailers by the characters of their keys and values.
pub open spec fn trailer_views(t: Seq<(String, String)>) -> Seq<(Seq<char>, Seq<char>)> {
    t.map_values(|p: (String, String)| (p.0@, p.1@))
}

/// An optional string by its characters.
pub open spec fn opt_view(o: Option<String>) -> Option<Seq<char>> {
    match o {
        Some(s) => Some(s@),
        None => None,
    }
}

/// Reads the trailers of a commit message.
///
/// Trusted: calls `git2::message_trailers_strs` and copies the (key, value) pairs it
/// lists, in order, into owned strings. Claimed: git2 first turns the message into a C
/// string, which fails exactly when the message holds a NUL character; libgit2's parse
/// otherwise fails only when it cannot allocate memory, which, as for every allocation
/// in this library, is not modelled, so a message without NUL is read. On an ASCII
/// message the pairs are `git_message_trailers` of the message; on another message the
/// parse depends on the process's locale, and what it lists is left unsaid.
#[verifier::external_body]
fn message_trailers(message: &str) -> (r: Result<Vec<(String, String)>, git2::Error>)
    ensures
        r is Err <==> message@.contains('\0'),
        is_ascii_chars(message@) && r is Ok ==> trailer_views(r->Ok_0@) == git_message_trailers(
            message@,
        ),
{
    match git2::message_trailers_strs(message) {
        Ok(trailers) => Ok(trailers.iter().map(|(k, v)| (k.to_string(), v.to_string())).collect()),
        Err(e) => Err(e),
    }
}

/// The key of the trailer that names the origin commit of a migrated commit:
/// `GitOrigin-RevId`.
pub open spec fn origin_rev_key() -> Seq<char> {
    seq!['G', 'i', 't', 'O', 'r', 'i', 'g', 'i', 'n', '-', 'R', 'e', 'v', 'I', 'd']
}

fn origin_rev_key_text() -> (s: String)
    ensures
        s@ == origin_rev_key(),
{
    let s = String::from_str("GitOrigin-RevId");
    proof {
        reveal_strlit("GitOrigin-RevId");
    }
    assert(s@ =~= origin_rev_key());
    s
}

/// The value of the first trailer whose key is `key`, if any.
pub open spec fn trailer_value(t: Seq<(Seq<char>, Seq<char>)>, key: Seq<char>) -> Option<Seq<char>>
    decreases t.len(),
{
    if t.len() == 0 {
        None
    } else if t[0].0 == key {
        Some(t[0].1)
    } else {
        trailer_value(t.drop_first(), key)
    }
}

proof fn lemma_trailer_value_skip(t: Seq<(Seq<char>, Seq<char>)>, key: Seq<char>, i: int)
    requires
        0 <= i < t.len(),
    ensures
        trailer_value(t.skip(i), key) == if t[i].0 == key {
            Some(t[i].1)
        } else {
            trailer_value(t.skip(i + 1), key)
        },
{
    assert(t.skip(i)[0] == t[i]);
    assert(t.skip(i).drop_first() =~= t.skip(i + 1));
}

/// Returns the value of the first `GitOrigin-RevId` trailer in `trailers`, if any.
pub fn migrated_rev_in(trailers: &Vec<(String, String)>) -> (r: Option<String>)
    ensures
        opt_view(r) == trailer_value(trailer_views(trailers@), origin_rev_key()),
{
    let key = origin_rev_key_text();
    let ghost tv = trailer_views(trailers@);
    let n = trailers.len();
    let mut i: usize = 0;
    assert(tv.skip(0) =~= tv);
    while i < n
        invariant
            n == trailers@.len(),
            tv == trailer_views(trailers@),
            key@ == origin_rev_key(),
            i <= n,
            trailer_value(tv, origin_rev_key()) == trailer_value(tv.skip(i as int), origin_rev_key()),
        decreases n - i,
    {
        proof {
            lemma_trailer_value_skip(tv, origin_rev_key(), i as int);
        }
        if trailers[i].0 == key {
            return Some(trailers[i].1.clone());
        }
        i = i + 1;
    }
    assert(tv.skip(n as int).len() == 0);
    None
}

/// The origin revision that a readable, ASCII commit message records, if any.
pub open spec fn rev_in_message(m: Seq<char>) -> Option<Seq<char>> {
    trailer_value(git_message_trailers(m), origin_rev_key())
}

/// A destination's history, newest first, by the text of each commit message (`None`
/// where a message is not UTF-8).
pub open spec fn history_view(h: Seq<Option<String>>) -> Seq<Option<Seq<char>>> {
    h.map_values(|m: Option<String>| opt_view(m))
}

/// Trailer lists, one per message of a history.
pub type TrailerLists = Seq<Seq<(Seq<char>, Seq<char>)>>;

/// Whether `message` is present, readable by libgit2 and records no revision among
/// `trailers`, so that a search passes over it.
pub open spec fn passes(message: Option<Seq<char>>, trailers: Seq<(Seq<char>, Seq<char>)>) -> bool {
    match message {
        None => true,
        Some(m) => !m.contains('\0') && trailer_value(trailers, origin_rev_key()) is None,
    }
}

/// What a search of `history` for the last migrated revision comes to when libgit2 reads
/// the trailers `t[i]` in its `i`-th message: the revision recorded by the newest commit
/// that records one (`Ok(Some(..))`), none (`Ok(None)`), or an error where a message that
/// the search reaches holds a NUL character, which libgit2 cannot read. Messages that are
/// not UTF-8 are passed over.
pub open spec fn search_with(history: Seq<Option<Seq<char>>>, t: TrailerLists) -> Result<Option<Seq<char>>, ()>
    decreases history.len(),
{
    if history.len() == 0 {
        Ok(None)
    } else {
        match history[0] {
            None => search_with(history.drop_first(), t.drop_first()),
            Some(m) => if m.contains('\0') {
                Err(())
            } else {
                match trailer_value(t[0], origin_rev_key()) {
                    Some(v) => Ok(Some(v)),
                    None => search_with(history.drop_first(), t.drop_first()),
                }
            },
        }
    }
}

/// Whether `t` can be the trailers libgit2 reads in the messages of `history`: one list
/// per message, and for an ASCII message, the list `git_message_trailers` names. What
/// libgit2 reads in a message that is not ASCII depends on the process's locale.
pub open spec fn trailers_possible(history: Seq<Option<Seq<char>>>, t: TrailerLists) -> bool {
    &&& t.len() == history.len()
    &&& forall|i: int|
        0 <= i < history.len() && #[trigger] ascii_message(history[i])
            ==> t[i] == git_message_trailers(history[i]->0)
}

/// Whether a search of `history` can come to `outcome`, for some trailers libgit2 may read.
pub open spec fn possible_outcome(history: Seq<Option<Seq<char>>>, outcome: Result<Option<Seq<char>>, ()>) -> bool {
    exists|t: TrailerLists| trailers_possible(history, t) && outcome == #[trigger] search_with(history, t)
}

/// The trailers that `git_message_trailers` names in each message of `history`.
pub open spec fn named_trailers(history: Seq<Option<Seq<char>>>) -> TrailerLists {
    Seq::new(
        history.len(),
        |i: int|
            match history[i] {
                Some(m) => git_message_trailers(m),
                None => Seq::empty(),
            },
    )
}

/// What a search of `history` comes to when every message it reads is ASCII (see
/// `search_determined`): the search with the trailers `git_message_trailers` names.
pub open spec fn search_outcome(history: Seq<Option<Seq<char>>>) -> Result<Option<Seq<char>>, ()> {
    search_with(history, named_trailers(history))
}

/// Whether the outcome of a search of `history` depends on the messages alone: every
/// message the search reads up to its end is ASCII or holds a NUL character.
pub open spec fn search_determined(history: Seq<Option<Seq<char>>>) -> bool
    decreases history.len(),
{
    if history.len() == 0 {
        true
    } else {
        match history[0] {
            None => search_determined(history.drop_first()),
            Some(m) => m.contains('\0') || (is_ascii_chars(m) && (rev_in_message(m) is Some
                || search_determined(history.drop_first()))),
        }
    }
}

/// Whether a commit message is present and ASCII.
pub open spec fn ascii_message(m: Option<Seq<char>>) -> bool {
    match m {
        Some(body) => is_ascii_chars(body),
        None => false,
    }
}

/// Whether a commit message is present and holds a NUL character.
pub open spec fn nul_message(m: Option<Seq<char>>) -> bool {
    match m {
        Some(body) => body.contains('\0'),
        None => false,
    }
}

/// Whether some message of `history` holds a NUL character.
pub open spec fn has_nul_message(history: Seq<Option<Seq<char>>>) -> bool {
    exists|i: int| 0 <= i < history.len() && #[trigger] nul_message(history[i])
}

/// The outcome of a search by its characters.
pub open spec fn outcome_view(r: Result<Option<String>, WorkflowError>) -> Result<Option<Seq<char>>, ()> {
    match r {
        Ok(v) => Ok(opt_view(v)),
        Err(_) => Err(()),
    }
}

proof fn lemma_search_with_skip(h: Seq<Option<Seq<char>>>, t: TrailerLists, i: int)
    requires
        t.len() == h.len(),
        0 <= i <= h.len(),
        forall|j: int| 0 <= j < i ==> passes(#[trigger] h[j], t[j]),
    ensures
        search_with(h, t) == search_with(h.skip(i), t.skip(i)),
    decreases i,
{
    if i == 0 {
        assert(h.skip(0) =~= h);
        assert(t.skip(0) =~= t);
    } else {
        assert(passes(h[0], t[0]));
        let h1 = h.drop_first();
        let t1 = t.drop_first();
        assert forall|j: int| 0 <= j < i - 1 implies passes(#[trigger] h1[j], t1[j]) by {
            assert(h1[j] == h[j + 1]);
            assert(passes(h[j + 1], t[j + 1]));
        }
        lemma_search_with_skip(h1, t1, i - 1);
        assert(h1.skip(i - 1) =~= h.skip(i));
        assert(t1.skip(i - 1) =~= t.skip(i));
    }
}

/// Where the search of `history` reads only ASCII messages (and NUL ones), every trailers
/// libgit2 may read lead it to `search_outcome(history)`.
pub proof fn lemma_determined_search(h: Seq<Option<Seq<char>>>, t: TrailerLists)
    requires
        trailers_possible(h, t),
        search_determined(h),
    ensures
        search_with(h, t) == search_outcome(h),
    decreases h.len(),
{
    if h.len() > 0 {
        let h1 = h.drop_first();
        let t1 = t.drop_first();
        let n = named_trailers(h);
        assert(named_trailers(h1) =~= n.drop_first());
        if let Some(m) = h[0] {
            if !m.contains('\0') {
                assert(ascii_message(h[0]));
                assert(t[0] == git_message_trailers(m));
                assert(n[0] == git_message_trailers(m));
            }
        }
        if h[0] is None || (!nul_message(h[0]) && rev_in_message(h[0]->0) is None) {
            assert forall|i: int|
                0 <= i < h1.len() && #[trigger] ascii_message(h1[i])
                    implies t1[i] == git_message_trailers(h1[i]->0) by {
                assert(h1[i] == h[i + 1]);
            }
            lemma_determined_search(h1, t1);
        }
    }
}

/// The trailers that the search reads in the message `m`: where `m` is ASCII, those
/// libgit2 finds in it; otherwise those libgit2 finds in the escaped form of `m`, which is
/// ASCII, each key and value unescaped again. libgit2 tells bytes apart by the C
/// library's character classes, which in the C locale count no byte of a non-ASCII
/// character, and no U+0001, as a letter, a digit or a space; the escape keeps every
/// such character in that class, so these are the trailers libgit2 finds in `m` itself in
/// that locale.
pub open spec fn read_trailers(m: Seq<char>) -> Seq<(Seq<char>, Seq<char>)> {
    if is_ascii_chars(m) {
        git_message_trailers(m)
    } else {
        unescape_pairs(escape_table(m), git_message_trailers(escaped(m)))
    }
}

/// The trailers the search reads in each message of `history` (none where a message is
/// not UTF-8).
pub open spec fn history_trailers(history: Seq<Option<Seq<char>>>) -> TrailerLists {
    Seq::new(
        history.len(),
        |i: int|
            match history[i] {
                Some(m) => read_trailers(m),
                None => Seq::empty(),
            },
    )
}

/// Reads the trailers of a commit message, as `read_trailers` says; fails exactly where
/// the message holds a NUL character.
fn read_message_trailers(body: &str) -> (r: Result<Vec<(String, String)>, git2::Error>)
    ensures
        r is Err <==> body@.contains('\0'),
        r is Ok ==> trailer_views(r->Ok_0@) == read_trailers(body@),
{
    if body.is_ascii() {
        message_trailers(body)
    } else {
        let (text, table) = escape_message(body);
        proof {
            law_escape_round_trip(body@);
        }
        match message_trailers(text.as_str()) {
            Ok(t) => Ok(unescape_pair_list(&table, &t)),
            Err(e) => Err(e),
        }
    }
}

/// Finds, in a destination's history listed newest first, the origin revision recorded by
/// the newest commit whose message carries a `GitOrigin-RevId` trailer: the point where the
/// previous migration stopped. Messages that are not UTF-8 (`None`) are passed over.
/// Returns `Ok(None)` when no commit records one, and the error of libgit2 when a message
/// that the search reaches holds a NUL character. The result is the search with the
/// trailers read in each message (`history_trailers`), ASCII or not.
pub fn find_last_migrated_commit_sha(history: &Vec<Option<String>>) -> (r: Result<Option<String>, WorkflowError>)
    ensures
        outcome_view(r) == search_with(history_view(history@), history_trailers(history_view(history@))),
        possible_outcome(history_view(history@), outcome_view(r)),
        search_determined(history_view(history@)) ==> outcome_view(r) == search_outcome(
            history_view(history@),
        ),
        r is Err ==> has_nul_message(history_view(history@)),
        !has_nul_message(history_view(history@)) ==> r is Ok,
{
    let ghost h = history_view(history@);
    let ghost t = history_trailers(h);
    proof {
        assert(trailers_possible(h, t));
    }
    let n = history.len();
    let mut i: usize = 0;
    while i < n
        invariant
            n == history@.len(),
            h == history_view(history@),
            t == history_trailers(h),
            trailers_possible(h, t),
            i <= n,
            forall|j: int| 0 <= j < i ==> passes(#[trigger] h[j], t[j]),
        decreases n - i,
    {
        proof {
            assert(h[i as int] == opt_view(history@[i as int]));
        }
        match &history[i] {
            Some(body) => {
                match read_message_trailers(body.as_str()) {
                    Ok(trailers) => {
                        let found = migrated_rev_in(&trailers);
                        if found.is_some() {
                            proof {
                                lemma_search_with_skip(h, t, i as int);
                                assert(h.skip(i as int)[0] == h[i as int]);
                                assert(t.skip(i as int)[0] == t[i as int]);
                                if search_determined(h) {
                                    lemma_determined_search(h, t);
                                }
                            }
                            return Ok(found);
                        }
                        assert(passes(h[i as int], t[i as int]));
                    },
                    Err(e) => {
                        proof {
                            assert(nul_message(h[i as int]));
                            lemma_search_with_skip(h, t, i as int);
                            assert(h.skip(i as int)[0] == h[i as int]);
                            if search_determined(h) {
                                lemma_determined_search(h, t);
                            }
                        }
                        return Err(WorkflowError::Trailers(e));
                    },
                }
            },
            None => {
                assert(passes(h[i as int], t[i as int]));
            },
        }
        i = i + 1;
    }
    proof {
        lemma_search_with_skip(h, t, n as int);
        assert(h.skip(n as int).len() == 0);
        if search_determined(h) {
            lemma_determined_search(h, t);
        }
    }
    Ok(None)
}

/// The message of a migrated commit: the origin commit's message, a line break, and a
/// `GitOrigin-RevId` trailer naming the origin commit.
pub open spec fn migrated_message(message: Seq<char>, id: Seq<char>) -> Seq<char> {
    message + seq!['\n'] + origin_rev_key() + seq![':', ' '] + id
}

/// Writes the message of the commit that migrates the origin commit `id` whose message is
/// `message`: `message`, a newline, then `GitOrigin-RevId: ` and `id`.
pub fn migrated_commit_message(message: &str, id: &str) -> (r: String)
    ensures
        r@ == migrated_message(message@, id@),
        r@.take(message@.len() as int) == message@,
        r@.skip(message@.len() as int) == "\nGitOrigin-RevId: "@ + id@,
{
    proof {
        law_migrated_message(message@, id@);
    }
    let mut r = String::from_str(message);
    push_char(&mut r, '\n');
    let key = origin_rev_key_text();
    r.append(key.as_str());
    push_char(&mut r, ':');
    push_char(&mut r, ' ');
    r.append(id);
    assert(r@ =~= migrated_message(message@, id@));
    r
}

/// The revisions of the origin after `start`, up to its head, in git's range notation.
pub open spec fn revision_range_of(start: Seq<char>) -> Seq<char> {
    start + seq!['.', '.', 'H', 'E', 'A', 'D']
}

/// Writes the range `<start>..HEAD` of origin revisions still to be migrated.
pub fn revision_range(start: &str) -> (r: String)
    ensures
        r@ == revision_range_of(start@),
        r@.len() == start@.len() + 6,
        r@.take(start@.len() as int) == start@,
        r@.skip(start@.len() as int) == "..HEAD"@,
{
    proof {
        law_revision_range(start@);
    }
    let mut r = String::from_str(start);
    push_char(&mut r, '.');
    push_char(&mut r, '.');
    push_char(&mut r, 'H');
    push_char(&mut r, 'E');
    push_char(&mut r, 'A');
    push_char(&mut r, 'D');
    assert(r@ =~= revision_range_of(start@));
    r
}

} // verus!

verus! {

/// The key of the trailer that records the origin revision is the text `GitOrigin-RevId`.
pub proof fn law_origin_rev_key()
    ensures
        origin_rev_key() == "GitOrigin-RevId"@,
{
    reveal_strlit("GitOrigin-RevId");
    assert(origin_rev_key() =~= "GitOrigin-RevId"@);
}

/// The message of a migrated commit is the whole message of its origin commit, unchanged,
/// followed by exactly a line break and the line `GitOrigin-RevId: <id>`.
pub proof fn law_migrated_message(message: Seq<char>, id: Seq<char>)
    ensures
        migrated_message(message, id).len() == message.len() + 18 + id.len(),
        migrated_message(message, id).take(message.len() as int) == message,
        migrated_message(message, id).skip(message.len() as int) == "\nGitOrigin-RevId: "@ + id,
{
    reveal_strlit("\nGitOrigin-RevId: ");
    law_origin_rev_key();
    reveal_strlit("GitOrigin-RevId");
    let r = migrated_message(message, id);
    assert(r.take(message.len() as int) =~= message);
    assert(r.skip(message.len() as int) =~= "\nGitOrigin-RevId: "@ + id);
}

/// The range of revisions still to migrate is the start revision followed by exactly
/// `..HEAD`: the start itself is excluded, everything after it up to the head included.
pub proof fn law_revision_range(start: Seq<char>)
    ensures
        revision_range_of(start).len() == start.len() + 6,
        revision_range_of(start).take(start.len() as int) == start,
        revision_range_of(start).skip(start.len() as int) == "..HEAD"@,
{
    reveal_strlit("..HEAD");
    let r = revision_range_of(start);
    assert(r.take(start.len() as int) =~= start);
    assert(r.skip(start.len() as int) =~= "..HEAD"@);
}


/// The value a list of trailers gives for a key is that of the first trailer with that
/// key; there is none exactly when no trailer has that key.
pub proof fn law_trailer_value(t: Seq<(Seq<char>, Seq<char>)>, key: Seq<char>)
    ensures
        trailer_value(t, key) is None <==> forall|k: int| 0 <= k < t.len() ==> #[trigger] t[k].0 != key,
        forall|k: int|
            0 <= k < t.len() && #[trigger] t[k].0 == key && (forall|j: int| 0 <= j < k ==> t[j].0 != key)
                ==> trailer_value(t, key) == Some(t[k].1),
    decreases t.len(),
{
    if t.len() > 0 {
        let r = t.drop_first();
        law_trailer_value(r, key);
        assert forall|k: int| 1 <= k < t.len() implies t[k] == #[trigger] r[k - 1] by {}
        if t[0].0 != key {
            assert((forall|k: int| 0 <= k < t.len() ==> #[trigger] t[k].0 != key) <==> (forall|k: int|
                0 <= k < r.len() ==> #[trigger] r[k].0 != key)) by {
                if forall|k: int| 0 <= k < r.len() ==> #[trigger] r[k].0 != key {
                    assert forall|k: int| 0 <= k < t.len() implies #[trigger] t[k].0 != key by {
                        if k > 0 {
                            assert(r[k - 1].0 != key);
                        }
                    }
                }
            }
            assert forall|k: int|
                0 <= k < t.len() && #[trigger] t[k].0 == key && (forall|j: int| 0 <= j < k ==> t[j].0 != key)
                    implies trailer_value(t, key) == Some(t[k].1) by {
                assert(k > 0);
                assert(r[k - 1].0 == key);
                assert forall|j: int| 0 <= j < k - 1 implies r[j].0 != key by {
                    assert(t[j + 1].0 != key);
                }
            }
        }
    }
}

/// A search passes over the messages before position `i` that are not UTF-8 or record
/// no revision; where the message at `i` records one in the trailers read from it, the
/// search comes to that revision.
pub proof fn law_search_stops_at_record(history: Seq<Option<Seq<char>>>, t: TrailerLists, i: int)
    requires
        t.len() == history.len(),
        0 <= i < history.len(),
        forall|j: int| 0 <= j < i ==> passes(#[trigger] history[j], t[j]),
        history[i] is Some,
        !history[i]->0.contains('\0'),
        trailer_value(t[i], origin_rev_key()) is Some,
    ensures
        search_with(history, t) == Ok::<Option<Seq<char>>, ()>(trailer_value(t[i], origin_rev_key())),
{
    lemma_search_with_skip(history, t, i);
    assert(history.skip(i)[0] == history[i]);
    assert(t.skip(i)[0] == t[i]);
}

/// Where the first message that the search does not pass over holds a NUL character, the
/// search fails.
pub proof fn law_search_fails_at_nul(history: Seq<Option<Seq<char>>>, t: TrailerLists, i: int)
    requires
        t.len() == history.len(),
        0 <= i < history.len(),
        forall|j: int| 0 <= j < i ==> passes(#[trigger] history[j], t[j]),
        nul_message(history[i]),
    ensures
        search_with(history, t) is Err,
{
    lemma_search_with_skip(history, t, i);
    assert(history.skip(i)[0] == history[i]);
}

/// Where the search passes over every message, it finds no revision.
pub proof fn law_search_finds_none(history: Seq<Option<Seq<char>>>, t: TrailerLists)
    requires
        t.len() == history.len(),
        forall|j: int| 0 <= j < history.len() ==> passes(#[trigger] history[j], t[j]),
    ensures
        search_with(history, t) == Ok::<Option<Seq<char>>, ()>(None),
{
    lemma_search_with_skip(history, t, history.len() as int);
    assert(history.skip(history.len() as int).len() == 0);
}

} // verus!
