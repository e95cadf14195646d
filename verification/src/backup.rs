//! Backups of the store: where each lives, how its lines are framed, which
//! come first in a listing and which have outlived their retention. The
//! files themselves are read and written by the caller.

use vstd::prelude::*;
use crate::schema::{decimal_digits, u64_to_decimal};

verus! {

broadcast use vstd::seq_lib::group_to_multiset_ensures;

/// Request to create a backup.
#[derive(Debug, Clone, PartialEq, Eq)]
pub struct CreateBackupRequest {
    pub description: Option<String>,
}

/// Request to restore a backup.
#[derive(Debug, Clone, PartialEq, Eq)]
pub struct RestoreBackupRequest {
    pub backup_id: String,
}

/// Backups of the store, kept in a directory for a number of days.
pub struct BackupManager {
    pub backup_dir: String,
    pub retention_days: usize,
}

/// What a listing shows of a backup.
pub struct BackupEntry {
    pub id: String,
    /// Seconds since the epoch.
    pub created_at: u64,
    pub size_bytes: u64,
    pub node_count: usize,
    /// The JSON text of the backup's header.
    pub metadata: String,
}

/// A line of a backup file.
pub enum BackupLine {
    /// `HEADER:` and the header's JSON text.
    Header(String),
    /// `NODE:` and a node's JSON text.
    Node(String),
    /// Any other line, which restoring skips.
    Other,
}

/// Abstract value of a [`BackupLine`].
pub enum LineView {
    Header(Seq<char>),
    Node(Seq<char>),
    Other,
}

impl View for BackupLine {
    type V = LineView;

    open spec fn view(&self) -> LineView {
        match self {
            BackupLine::Header(h) => LineView::Header(h@),
            BackupLine::Node(n) => LineView::Node(n@),
            BackupLine::Other => LineView::Other,
        }
    }
}

/// What a line of a backup file is: after `HEADER:`, a header; else after
/// `NODE:`, a node; else nothing.
pub open spec fn line_kind(line: Seq<char>) -> LineView {
    if "HEADER:"@.is_prefix_of(line) {
        LineView::Header(line.subrange("HEADER:"@.len() as int, line.len() as int))
    } else if "NODE:"@.is_prefix_of(line) {
        LineView::Node(line.subrange("NODE:"@.len() as int, line.len() as int))
    } else {
        LineView::Other
    }
}

/// Seconds in a day.
pub const SECONDS_PER_DAY: u64 = 86400;

/// The entries sorted newest first.
pub open spec fn newest_first_sorted(s: Seq<BackupEntry>) -> bool {
    forall|i: int, j: int| 0 <= i < j < s.len() ==> s[i].created_at >= s[j].created_at
}

/// The entries created at `t`, in order.
pub open spec fn made_at(s: Seq<BackupEntry>, t: u64) -> Seq<BackupEntry>
    decreases s.len(),
{
    if s.len() == 0 {
        Seq::empty()
    } else if s.last().created_at == t {
        made_at(s.drop_last(), t).push(s.last())
    } else {
        made_at(s.drop_last(), t)
    }
}

proof fn lemma_made_at_add(a: Seq<BackupEntry>, b: Seq<BackupEntry>, t: u64)
    ensures
        made_at(a + b, t) == made_at(a, t) + made_at(b, t),
    decreases b.len(),
{
    if b.len() == 0 {
        assert(a + b =~= a);
        assert(made_at(a, t) + made_at(b, t) =~= made_at(a, t));
    } else {
        lemma_made_at_add(a, b.drop_last(), t);
        assert((a + b).drop_last() =~= a + b.drop_last());
        assert((a + b).last() == b.last());
        if b.last().created_at == t {
            assert(made_at(a, t) + made_at(b.drop_last(), t).push(b.last())
                =~= (made_at(a, t) + made_at(b.drop_last(), t)).push(b.last()));
        }
    }
}

proof fn lemma_made_at_none(s: Seq<BackupEntry>, t: u64)
    requires
        forall|i: int| 0 <= i < s.len() ==> s[i].created_at != t,
    ensures
        made_at(s, t) == Seq::<BackupEntry>::empty(),
    decreases s.len(),
{
    if s.len() > 0 {
        lemma_made_at_none(s.drop_last(), t);
    }
}

/// The ids of the entries created before `cutoff`, in order.
pub open spec fn expired_ids(entries: Seq<BackupEntry>, cutoff: u64) -> Seq<Seq<char>>
    decreases entries.len(),
{
    if entries.len() == 0 {
        Seq::empty()
    } else {
        let rest = expired_ids(entries.drop_last(), cutoff);
        if entries.last().created_at < cutoff { rest.push(entries.last().id@) } else { rest }
    }
}

fn concat(a: &str, b: &str) -> (r: String)
    ensures
        r@ == a@ + b@,
{
    let mut r = a.to_owned();
    r.append(b);
    r
}

/// `s` without the prefix `p`, where `s` starts with `p`.
fn strip_prefix<'a>(s: &'a str, p: &str) -> (r: Option<&'a str>)
    ensures
        match r {
            Some(rest) => p@.is_prefix_of(s@) && rest@ == s@.subrange(p@.len() as int, s@.len() as int),
            None => !p@.is_prefix_of(s@),
        },
{
    let n = p.unicode_len();
    let m = s.unicode_len();
    if n > m {
        return None;
    }
    let mut k: usize = 0;
    while k < n
        invariant
            k <= n <= m,
            n == p@.len(),
            m == s@.len(),
            forall|i: int| 0 <= i < k ==> s@[i] == p@[i],
        decreases n - k,
    {
        if s.get_char(k) != p.get_char(k) {
            return None;
        }
        k = k + 1;
    }
    Some(s.substring_char(n, m))
}

/// Reads a line of a backup file by its prefix.
pub fn classify_line(line: &str) -> (r: BackupLine)
    ensures
        r@ == line_kind(line@),
{
    if let Some(h) = strip_prefix(line, "HEADER:") {
        BackupLine::Header(h.to_owned())
    } else if let Some(n) = strip_prefix(line, "NODE:") {
        BackupLine::Node(n.to_owned())
    } else {
        BackupLine::Other
    }
}

/// The header line of a backup file for the header's JSON text.
pub fn header_line(header_json: &str) -> (l: String)
    ensures
        l@ == "HEADER:"@ + header_json@,
{
    concat("HEADER:", header_json)
}

/// The line of a backup file for a node's JSON text.
pub fn node_line(node_json: &str) -> (l: String)
    ensures
        l@ == "NODE:"@ + node_json@,
{
    concat("NODE:", node_json)
}

/// The entries newest first; entries created at the same time keep their
/// order.
pub fn newest_first(entries: Vec<BackupEntry>) -> (r: Vec<BackupEntry>)
    ensures
        r@.to_multiset() == entries@.to_multiset(),
        newest_first_sorted(r@),
        forall|t: u64| #[trigger] made_at(r@, t) == made_at(entries@, t),
{
    let mut rest = entries;
    let mut r: Vec<BackupEntry> = Vec::new();
    proof {
        assert forall|t: u64| #[trigger] made_at(entries@, t) == made_at(r@, t) + made_at(rest@, t) by {
            assert(made_at(r@, t) + made_at(rest@, t) =~= made_at(rest@, t));
        }
    }
    while rest.len() > 0
        invariant
            r@.to_multiset().add(rest@.to_multiset()) == entries@.to_multiset(),
            newest_first_sorted(r@),
            forall|t: u64| #[trigger] made_at(entries@, t) == made_at(r@, t) + made_at(rest@, t),
        decreases rest.len(),
    {
        let ghost before = rest@;
        let e = rest.remove(0);
        proof {
            assert(before.remove(0) == rest@);
            assert(before =~= seq![e] + rest@);
        }
        // after every entry at least as new
        let mut p: usize = 0;
        while p < r.len() && r[p].created_at >= e.created_at
            invariant
                p <= r.len(),
                forall|i: int| 0 <= i < p ==> r@[i].created_at >= e.created_at,
            decreases r.len() - p,
        {
            p = p + 1;
        }
        let ghost old_r = r@;
        r.insert(p, e);
        proof {
            assert(r@ == old_r.insert(p as int, e));
            assert forall|i: int, j: int| 0 <= i < j < r@.len() implies r@[i].created_at >= r@[j].created_at by {
                if j < p {
                } else if j == p {
                } else if i < p {
                    assert(old_r[i].created_at >= old_r[j - 1].created_at);
                } else if i == p {
                    assert(old_r[p as int].created_at < e.created_at);
                    assert(old_r[p as int].created_at >= old_r[j - 1].created_at || j - 1 == p);
                } else {
                    assert(old_r[i - 1].created_at >= old_r[j - 1].created_at);
                }
            }
            assert(r@.to_multiset().add(rest@.to_multiset()) =~= entries@.to_multiset());
            let take = old_r.take(p as int);
            let skip = old_r.skip(p as int);
            assert(old_r =~= take + skip);
            assert(r@ =~= take + (seq![e] + skip));
            assert forall|t: u64| #[trigger] made_at(entries@, t) == made_at(r@, t) + made_at(rest@, t) by {
                lemma_made_at_add(take, skip, t);
                lemma_made_at_add(take, seq![e] + skip, t);
                lemma_made_at_add(seq![e], skip, t);
                lemma_made_at_add(seq![e], rest@, t);
                let one = seq![e];
                assert(one.last() == e);
                assert(one.drop_last() =~= Seq::<BackupEntry>::empty());
                assert(made_at(one.drop_last(), t) == Seq::<BackupEntry>::empty());
                if e.created_at == t {
                    assert forall|i: int| 0 <= i < skip.len() implies skip[i].created_at != t by {
                        assert(skip[i] == old_r[p + i]);
                        if i > 0 {
                            assert(old_r[p as int].created_at >= old_r[p + i].created_at);
                        }
                    }
                    lemma_made_at_none(skip, t);
                    assert(made_at(seq![e], t) =~= seq![e]);
                    assert(made_at(r@, t) =~= made_at(old_r, t) + seq![e]);
                    assert(made_at(before, t) =~= seq![e] + made_at(rest@, t));
                    assert(made_at(old_r, t) + seq![e] + made_at(rest@, t)
                        =~= made_at(old_r, t) + (seq![e] + made_at(rest@, t)));
                } else {
                    assert(made_at(seq![e], t) =~= Seq::<BackupEntry>::empty());
                    assert(made_at(r@, t) =~= made_at(old_r, t));
                    assert(made_at(before, t) =~= made_at(rest@, t));
                }
            }
        }
    }
    proof {
        assert forall|t: u64| #[trigger] made_at(r@, t) == made_at(entries@, t) by {
            assert(made_at(r@, t) + made_at(rest@, t) =~= made_at(r@, t));
        }
    }
    r
}

impl BackupManager {
    /// A manager keeping backups in `backup_dir` for `retention_days` days.
    pub fn new(backup_dir: &str, retention_days: usize) -> (m: Self)
        ensures
            m.backup_dir@ == backup_dir@,
            m.retention_days == retention_days,
    {
        BackupManager { backup_dir: String::from_str(backup_dir), retention_days }
    }

    /// The id of a backup made `now` seconds after the epoch.
    pub fn backup_id(now: u64) -> (id: String)
        ensures
            id@ == "backup_"@ + decimal_digits(now as nat),
    {
        let n = u64_to_decimal(now);
        concat("backup_", n.as_str())
    }

    /// The file that holds backup `backup_id`.
    pub fn backup_path(&self, backup_id: &str) -> (p: String)
        ensures
            p@ == self.backup_dir@ + "/"@ + backup_id@ + ".jsonl"@,
    {
        let a = concat(self.backup_dir.as_str(), "/");
        let b = concat(a.as_str(), backup_id);
        concat(b.as_str(), ".jsonl")
    }

    /// The creation time before which a backup has outlived its retention,
    /// `now` seconds after the epoch.
    pub fn retention_cutoff(&self, now: u64) -> (c: u64)
        requires
            self.retention_days * SECONDS_PER_DAY <= now,
        ensures
            c == now - self.retention_days * SECONDS_PER_DAY,
    {
        now - (self.retention_days as u64) * SECONDS_PER_DAY
    }

    /// The ids of the backups created before `cutoff`, in the order given.
    pub fn expired_backups(entries: &Vec<BackupEntry>, cutoff: u64) -> (ids: Vec<String>)
        ensures
            ids@.map_values(|s: String| s@) == expired_ids(entries@, cutoff),
    {
        let mut ids: Vec<String> = Vec::new();
        let mut i: usize = 0;
        while i < entries.len()
            invariant
                i <= entries.len(),
                ids@.map_values(|s: String| s@) == expired_ids(entries@.take(i as int), cutoff),
            decreases entries.len() - i,
        {
            proof {
                assert(entries@.take(i + 1).drop_last() =~= entries@.take(i as int));
            }
            if entries[i].created_at < cutoff {
                let ghost before = ids@;
                ids.push(entries[i].id.clone());
                proof {
                    assert(ids@.map_values(|s: String| s@) =~= before.map_values(|s: String| s@).push(entries@[i as int].id@));
                }
            }
            i = i + 1;
        }
        proof {
            assert(entries@.take(entries.len() as int) =~= entries@);
        }
        ids
    }
}

} // verus!
