//! The command line: the commands the program takes, and the reading of
//! comma-separated item IDs.
use vstd::prelude::*;

use crate::text::{chars_of, decimal, is_digit, is_white_space, lemma_decimal_value, parse_u32, trim_end, trim_start, parse_u32_spec, push_all, push_str_chars, trim, trimmed};

verus! {

/// The parsed command line.
pub struct Cli {
    pub command: Option<Command>,
}

/// One command of the command line.
pub enum Command {
    /// Add a task to a board.
    Task(AddItem),
    /// Add a note to a board.
    Note(AddItem),
    /// Show all task boards.
    Tasks,
    /// Show all note boards.
    Notes,
    /// Show tasks and notes together.
    All,
    /// Show tasks in the order they were created.
    Timeline,
    /// Show one board.
    Board { name: String },
    /// Browse the archive.
    Archive,
    /// Edit an item's description.
    Edit { id: u32, description: Option<String> },
    /// Set an item's priority.
    Priority { id: u32, level: String },
    /// Move items to another board.
    Move { ids: String, board: String },
    /// Archive items.
    Delete { ids: String },
    /// Mark tasks done.
    Done { ids: String },
    /// Mark items pending again.
    Undone { ids: String },
    /// Take items out of the archive.
    Restore { ids: String },
    /// Permanently delete every archived item.
    Clear,
    /// Show or change the configuration.
    Config { setting: Option<ConfigSetting> },
}

/// A configuration change.
pub enum ConfigSetting {
    /// Set the default board.
    Board { name: String },
}

/// What adding a task or a note takes: its text and, optionally, its board.
pub struct AddItem {
    pub description: String,
    pub board: Option<String>,
}

/// The pieces of `s` between commas, as `str::split(',')` gives them: one
/// more than there are commas, empty pieces included.
pub open spec fn split_commas(s: Seq<char>) -> Seq<Seq<char>>
    decreases s.len(),
{
    if s.len() == 0 {
        seq![Seq::<char>::empty()]
    } else if s.last() == ',' {
        split_commas(s.drop_last()).push(Seq::<char>::empty())
    } else {
        let p = split_commas(s.drop_last());
        p.update(p.len() - 1, p.last().push(s.last()))
    }
}

/// The error for a piece that is no ID.
pub open spec fn invalid_id_message(piece: Seq<char>) -> Seq<char> {
    "Invalid ID: '"@ + piece + "'"@
}

/// The IDs that the trimmed pieces denote, or the error for the first piece
/// that denotes none.
pub open spec fn parse_pieces(ps: Seq<Seq<char>>) -> Result<Seq<u32>, Seq<char>>
    decreases ps.len(),
{
    if ps.len() == 0 {
        Ok(Seq::<u32>::empty())
    } else {
        match parse_pieces(ps.drop_last()) {
            Err(e) => Err(e),
            Ok(ids) => match parse_u32_spec(trim(ps.last())) {
                Some(n) => Ok(ids.push(n)),
                None => Err(invalid_id_message(trim(ps.last()))),
            },
        }
    }
}

/// What `parse_ids` gives for a string.
pub open spec fn parse_ids_spec(s: Seq<char>) -> Result<Seq<u32>, Seq<char>> {
    parse_pieces(split_commas(s))
}

proof fn lemma_split_len(s: Seq<char>)
    ensures
        split_commas(s).len() >= 1,
    decreases s.len(),
{
    if s.len() > 0 {
        lemma_split_len(s.drop_last());
    }
}

proof fn lemma_split_step(s: Seq<char>, i: int)
    requires
        0 <= i < s.len(),
    ensures
        split_commas(s.take(i + 1)) == (if s[i] == ',' {
            split_commas(s.take(i)).push(Seq::<char>::empty())
        } else {
            let p = split_commas(s.take(i));
            p.update(p.len() - 1, p.last().push(s[i]))
        }),
{
    assert(s.take(i + 1).drop_last() =~= s.take(i));
    assert(s.take(i + 1).last() == s[i]);
}

proof fn lemma_parse_pieces_err_stays(ps: Seq<Seq<char>>, qs: Seq<Seq<char>>, e: Seq<char>)
    requires
        parse_pieces(ps) == Err::<Seq<u32>, Seq<char>>(e),
    ensures
        parse_pieces(ps + qs) == Err::<Seq<u32>, Seq<char>>(e),
    decreases qs.len(),
{
    if qs.len() == 0 {
        assert(ps + qs =~= ps);
    } else {
        lemma_parse_pieces_err_stays(ps, qs.drop_last(), e);
        assert((ps + qs).drop_last() =~= ps + qs.drop_last());
    }
}

/// The completed pieces of a prefix of `s` are the first pieces of `s`.
proof fn lemma_split_prefix(s: Seq<char>, i: int, j: int)
    requires
        0 <= i <= j <= s.len(),
    ensures
        split_commas(s.take(j)).len() >= split_commas(s.take(i)).len(),
        split_commas(s.take(j)).take(split_commas(s.take(i)).len() - 1) == split_commas(
            s.take(i),
        ).drop_last(),
    decreases j - i,
{
    lemma_split_len(s.take(i));
    if i < j {
        lemma_split_prefix(s, i, j - 1);
        lemma_split_step(s, j - 1);
        lemma_split_len(s.take(j - 1));
        let a = split_commas(s.take(i));
        let p = split_commas(s.take(j - 1));
        let q = split_commas(s.take(j));
        assert(q.take(a.len() - 1) =~= p.take(a.len() - 1));
    } else {
        assert(split_commas(s.take(j)).take(split_commas(s.take(i)).len() - 1)
            =~= split_commas(s.take(i)).drop_last());
    }
}

/// The error text for a piece that is no ID.
fn invalid_id(piece: &[char]) -> (e: String)
    ensures
        e@ == invalid_id_message(piece@),
{
    let mut e = String::new();
    push_str_chars(&mut e, "Invalid ID: '");
    push_all(&mut e, piece);
    push_str_chars(&mut e, "'");
    e
}

/// Reads a comma-separated list of item IDs such as `1,2, 3`. Each piece
/// between commas is trimmed of white space and read as a `u32`; the first
/// piece that is no such number gives the error `Invalid ID: '<piece>'`.
pub fn parse_ids(ids_str: &str) -> (r: Result<Vec<u32>, String>)
    ensures
        match r {
            Ok(ids) => parse_ids_spec(ids_str@) == Ok::<Seq<u32>, Seq<char>>(ids@),
            Err(e) => parse_ids_spec(ids_str@) == Err::<Seq<u32>, Seq<char>>(e@),
        },
{
    let s = chars_of(ids_str);
    let ghost sv = s@;
    let mut out: Vec<u32> = Vec::new();
    let mut cur: Vec<char> = Vec::new();
    let mut i: usize = 0;
    assert(sv.take(0) =~= Seq::<char>::empty());
    while i < s.len()
        invariant
            s@ == sv,
            sv == ids_str@,
            0 <= i <= sv.len(),
            split_commas(sv.take(i as int)).len() >= 1,
            cur@ == split_commas(sv.take(i as int)).last(),
            parse_pieces(split_commas(sv.take(i as int)).drop_last()) == Ok::<
                Seq<u32>,
                Seq<char>,
            >(out@),
        decreases sv.len() - i,
    {
        proof {
            lemma_split_step(sv, i as int);
            lemma_split_len(sv.take(i as int));
        }
        let ghost p = split_commas(sv.take(i as int));
        if s[i] == ',' {
            let t = trimmed(cur.as_slice());
            assert(p.push(Seq::<char>::empty()).drop_last() =~= p);
            assert(p =~= p.drop_last().push(p.last()));
            match parse_u32(t.as_slice()) {
                Some(n) => {
                    out.push(n);
                },
                None => {
                    proof {
                        assert(parse_pieces(p) == Err::<Seq<u32>, Seq<char>>(
                            invalid_id_message(t@),
                        ));
                        assert(sv.take(sv.len() as int) =~= sv);
                        assert(sv[i as int] == ',');
                        assert(split_commas(sv.take(i + 1)) == p.push(Seq::<char>::empty()));
                        lemma_split_prefix(sv, i as int + 1, sv.len() as int);
                        lemma_split_len(sv);
                        let all = split_commas(sv);
                        let k = p.len() as int;
                        assert(all.take(k) =~= p);
                        lemma_parse_pieces_err_stays(p, all.skip(k), invalid_id_message(t@));
                        assert(all =~= p + all.skip(k));
                    }
                    return Err(invalid_id(t.as_slice()));
                },
            }
            cur = Vec::new();
        } else {
            cur.push(s[i]);
            let ghost q = p.update(p.len() - 1, p.last().push(sv[i as int]));
            assert(q.drop_last() =~= p.drop_last());
        }
        i = i + 1;
    }
    assert(sv.take(sv.len() as int) =~= sv);
    let ghost p = split_commas(sv);
    assert(p =~= p.drop_last().push(p.last()));
    let t = trimmed(cur.as_slice());
    match parse_u32(t.as_slice()) {
        Some(n) => {
            out.push(n);
            Ok(out)
        },
        None => Err(invalid_id(t.as_slice())),
    }
}

/// IDs written as `parse_ids` reads them: decimal numerals joined by commas.
pub open spec fn join_ids(ids: Seq<u32>) -> Seq<char>
    decreases ids.len(),
{
    if ids.len() <= 1 {
        if ids.len() == 0 {
            Seq::<char>::empty()
        } else {
            decimal(ids[0] as nat)
        }
    } else {
        join_ids(ids.drop_last()) + seq![','] + decimal(ids.last() as nat)
    }
}

proof fn lemma_split_append_plain(x: Seq<char>, y: Seq<char>)
    requires
        forall|i: int| 0 <= i < y.len() ==> y[i] != ',',
    ensures
        split_commas(x + y) == split_commas(x).update(
            split_commas(x).len() - 1,
            split_commas(x).last() + y,
        ),
    decreases y.len(),
{
    lemma_split_len(x);
    if y.len() == 0 {
        assert(x + y =~= x);
        assert(split_commas(x).last() + y =~= split_commas(x).last());
        assert(split_commas(x).update(split_commas(x).len() - 1, split_commas(x).last())
            =~= split_commas(x));
    } else {
        let y0 = y.drop_last();
        lemma_split_append_plain(x, y0);
        assert((x + y).drop_last() =~= x + y0);
        assert((x + y).last() == y.last());
        let p = split_commas(x);
        assert(p.last() + y =~= (p.last() + y0).push(y.last()));
        assert(split_commas(x + y) =~= p.update(p.len() - 1, p.last() + y));
    }
}

proof fn lemma_split_after_comma(x: Seq<char>)
    ensures
        split_commas(x + seq![',']) == split_commas(x).push(Seq::<char>::empty()),
{
    assert((x + seq![',']).drop_last() =~= x);
}

proof fn lemma_numeral_plain(n: nat)
    ensures
        forall|i: int| 0 <= i < decimal(n).len() ==> #[trigger] decimal(n)[i] != ',',
        trim(decimal(n)) == decimal(n),
        parse_u32_spec(decimal(n)) == (if n <= u32::MAX {
            Some(n as u32)
        } else {
            None::<u32>
        }),
{
    lemma_decimal_value(n);
    let d = decimal(n);
    assert(is_digit(d[0]));
    assert(is_digit(d.last()));
    assert(!is_white_space(d[0]));
    assert(!is_white_space(d.last()));
    assert(trim_start(d) == d);
    assert(trim_end(d) == d);
    assert forall|i: int| 0 <= i < d.len() implies #[trigger] d[i] != ',' by {
        assert(is_digit(d[i]));
    }
}

proof fn lemma_split_join(ids: Seq<u32>)
    requires
        ids.len() >= 1,
    ensures
        split_commas(join_ids(ids)) == ids.map_values(|n: u32| decimal(n as nat)),
    decreases ids.len(),
{
    let m = ids.map_values(|n: u32| decimal(n as nat));
    if ids.len() == 1 {
        lemma_numeral_plain(ids[0] as nat);
        lemma_split_append_plain(Seq::<char>::empty(), decimal(ids[0] as nat));
        assert(Seq::<char>::empty() + decimal(ids[0] as nat) =~= decimal(ids[0] as nat));
        assert(split_commas(Seq::<char>::empty()).last() + decimal(ids[0] as nat) =~= decimal(
            ids[0] as nat,
        ));
        assert(split_commas(join_ids(ids)) =~= m);
    } else {
        let front = ids.drop_last();
        let last = decimal(ids.last() as nat);
        lemma_split_join(front);
        lemma_numeral_plain(ids.last() as nat);
        lemma_split_after_comma(join_ids(front));
        lemma_split_append_plain(join_ids(front) + seq![','], last);
        let q = split_commas(join_ids(front)).push(Seq::<char>::empty());
        assert(q.last() + last =~= last);
        assert(front.map_values(|n: u32| decimal(n as nat)) =~= m.drop_last());
        assert(split_commas(join_ids(ids)) =~= m);
    }
}

proof fn lemma_parse_numerals(ids: Seq<u32>)
    ensures
        parse_pieces(ids.map_values(|n: u32| decimal(n as nat))) == Ok::<Seq<u32>, Seq<char>>(ids),
    decreases ids.len(),
{
    let m = ids.map_values(|n: u32| decimal(n as nat));
    if ids.len() > 0 {
        lemma_parse_numerals(ids.drop_last());
        assert(m.drop_last() =~= ids.drop_last().map_values(|n: u32| decimal(n as nat)));
        lemma_numeral_plain(ids.last() as nat);
        assert(ids.drop_last().push(ids.last()) =~= ids);
    } else {
        assert(ids =~= Seq::<u32>::empty());
    }
}

/// Any non-empty list of IDs, written as decimal numerals joined by commas,
/// is read back by `parse_ids` as the same list.
pub proof fn parse_ids_reads_joined_ids(ids: Seq<u32>)
    requires
        ids.len() >= 1,
    ensures
        parse_ids_spec(join_ids(ids)) == Ok::<Seq<u32>, Seq<char>>(ids),
{
    lemma_split_join(ids);
    lemma_parse_numerals(ids);
}

} // verus!
