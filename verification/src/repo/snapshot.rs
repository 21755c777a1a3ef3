//! Snapshots of the repository database: a named copy of its buckets,
//! stored under the meta directory, that can be put back later.
use vstd::prelude::*;

use crate::repo::database::bucket::{bucket_ok, Bucket, Database, BUCKET_VERSION};
use crate::text::{concat, dec, owned, starts_with, u64_to_string};

verus! {

/// `p` pushed onto the path `base`: an absolute `p` replaces it, else `p`
/// goes below it, with a `/` between where `base` has none at its end.
pub open spec fn path_push(base: Seq<char>, p: Seq<char>) -> Seq<char> {
    if p.len() > 0 && p[0] == '/' {
        p
    } else if base.len() == 0 || base.last() == '/' {
        base + p
    } else {
        base + "/"@ + p
    }
}

fn push_path(base: &str, p: &str) -> (r: String)
    ensures
        r@ == path_push(base@, p@),
{
    proof {
        reveal_strlit("/");
        assert("/"@ =~= seq!['/']);
        if base@.len() > 0 {
            assert(crate::text::ends_with(base@, "/"@) <==> base@.last() == '/') by {
                let t = base@.subrange(base@.len() - 1, base@.len() as int);
                assert(t.len() == 1 && t[0] == base@.last());
                if base@.last() == '/' {
                    assert(t =~= "/"@);
                }
            }
        }
        assert(starts_with(p@, "/"@) <==> (p@.len() > 0 && p@[0] == '/')) by {
            if p@.len() > 0 {
                let t = p@.subrange(0, 1);
                assert(t.len() == 1 && t[0] == p@[0]);
                if p@[0] == '/' {
                    assert(t =~= "/"@);
                }
            }
        }
    }
    if crate::text::starts_with_str(p, "/") {
        return owned(p);
    }
    let chars = crate::text::chars_of(base);
    if chars.len() == 0 || crate::text::ends_with_str(base, "/") {
        concat(base, p)
    } else {
        let r = concat(base, "/");
        concat(r.as_str(), p)
    }
}

/// Where the snapshot `name` is stored below the meta directory `meta_dir`.
pub open spec fn snapshot_path(meta_dir: Seq<char>, name: Seq<char>) -> Seq<char> {
    path_push(path_push(meta_dir, "snapshot"@), name + ".json"@)
}

/// The repositories that a remote's owners hold, over the remotes `d`.
pub open spec fn repo_total(d: Seq<(String, crate::repo::database::bucket::RemoteBucket)>) -> int
    decreases d.len(),
{
    if d.len() == 0 {
        0
    } else {
        repo_total(d.drop_last()) + owner_repos(d.last().1.0@)
    }
}

/// The repositories of the owners `os`.
pub open spec fn owner_repos(os: Seq<(String, crate::repo::database::bucket::OwnerBucket)>) -> int
    decreases os.len(),
{
    if os.len() == 0 {
        0
    } else {
        owner_repos(os.drop_last()) + os.last().1.0@.len()
    }
}

/// The owners over the remotes `d`.
pub open spec fn owner_total(d: Seq<(String, crate::repo::database::bucket::RemoteBucket)>) -> int
    decreases d.len(),
{
    if d.len() == 0 {
        0
    } else {
        owner_total(d.drop_last()) + d.last().1.0@.len()
    }
}

/// A named copy of the database's buckets, when it was taken, in which
/// format version, and the file it is stored in.
pub struct Snapshot {
    pub name: String,
    pub create_time: u64,
    pub version: u32,
    pub bucket: Bucket,
    pub path: String,
}

impl Snapshot {
    /// The snapshot `name` of `db` taken at `now`, to be stored below `meta_dir`.
    pub fn take(meta_dir: &str, now: u64, db: Database, name: String) -> (r: Snapshot)
        requires
            bucket_ok(db.bucket),
        ensures
            r.name@ == name@,
            r.create_time == now,
            r.version == BUCKET_VERSION,
            bucket_ok(r.bucket),
            !db.clean_labels ==> r.bucket == db.bucket,
            r.bucket.data == db.bucket.data,
            r.path@ == snapshot_path(meta_dir@, name@),
    {
        let dir = push_path(meta_dir, "snapshot");
        let file = concat(name.as_str(), ".json");
        let path = push_path(dir.as_str(), file.as_str());
        let bucket = db.close();
        Snapshot { name, create_time: now, version: BUCKET_VERSION, bucket, path }
    }

    /// `db` with the snapshot's buckets in place of its own, to be saved.
    pub fn restore(self, db: Database) -> (r: Database)
        ensures
            r.bucket == self.bucket,
            r.clean_labels == db.clean_labels,
    {
        let mut db = db;
        db.set_bucket(self.bucket);
        db
    }

    /// The lines that show the snapshot: its name, `time` (its creation time
    /// as text), its version, and how many remotes, owners and repositories
    /// it holds.
    pub fn display(&self, time: &str) -> (r: Vec<String>)
        requires
            owner_total(self.bucket.data@) <= usize::MAX,
            repo_total(self.bucket.data@) <= usize::MAX,
        ensures
            r@.len() == 6,
            r@[0]@ == "Snapshot '"@ + self.name@ + "'"@,
            r@[1]@ == "Create Time:  "@ + time@,
            r@[2]@ == "Version:      "@ + dec(self.version as nat),
            r@[3]@ == "Remote Count: "@ + dec(self.bucket.data@.len()),
            r@[4]@ == "Owner Count:  "@ + dec(owner_total(self.bucket.data@) as nat),
            r@[5]@ == "Repo Count:   "@ + dec(repo_total(self.bucket.data@) as nat),
    {
        let data = &self.bucket.data;
        let mut owners: usize = 0;
        let mut repos: usize = 0;
        let mut i: usize = 0;
        while i < data.len()
            invariant
                i <= data.len(),
                owner_total(data@) <= usize::MAX,
                repo_total(data@) <= usize::MAX,
                owners as int == owner_total(data@.take(i as int)),
                repos as int == repo_total(data@.take(i as int)),
            decreases data.len() - i,
        {
            let os = &data[i].1.0;
            proof {
                assert(data@.take(i + 1).drop_last() =~= data@.take(i as int));
                lemma_totals_grow(data@, (i + 1) as int);
            }
            let mut k: usize = 0;
            let mut here: usize = 0;
            proof {
                assert(os@.take(0) =~= Seq::<(String, crate::repo::database::bucket::OwnerBucket)>::empty());
            }
            while k < os.len()
                invariant
                    k <= os.len(),
                    here as int == owner_repos(os@.take(k as int)),
                    repos as int + owner_repos(os@) <= usize::MAX,
                decreases os.len() - k,
            {
                proof {
                    assert(os@.take(k + 1).drop_last() =~= os@.take(k as int));
                    lemma_owner_repos_grow(os@, (k + 1) as int);
                }
                here = here + os[k].1.0.len();
                k = k + 1;
            }
            proof {
                assert(os@.take(os.len() as int) =~= os@);
            }
            owners = owners + os.len();
            repos = repos + here;
            i = i + 1;
        }
        proof {
            assert(data@.take(data.len() as int) =~= data@);
        }
        let l0 = concat("Snapshot '", self.name.as_str());
        let l0 = concat(l0.as_str(), "'");
        let l1 = concat("Create Time:  ", time);
        let v = u64_to_string(self.version as u64);
        let l2 = concat("Version:      ", v.as_str());
        let n = u64_to_string(data.len() as u64);
        let l3 = concat("Remote Count: ", n.as_str());
        let n = u64_to_string(owners as u64);
        let l4 = concat("Owner Count:  ", n.as_str());
        let n = u64_to_string(repos as u64);
        let l5 = concat("Repo Count:   ", n.as_str());
        vec![l0, l1, l2, l3, l4, l5]
    }
}

proof fn lemma_owner_repos_grow(os: Seq<(String, crate::repo::database::bucket::OwnerBucket)>, k: int)
    requires
        0 <= k <= os.len(),
    ensures
        owner_repos(os.take(k)) <= owner_repos(os),
        0 <= owner_repos(os.take(k)),
    decreases os.len() - k,
{
    if k < os.len() {
        lemma_owner_repos_grow(os, k + 1);
        assert(os.take(k + 1).drop_last() =~= os.take(k));
        lemma_owner_repos_nonneg(os.take(k));
    } else {
        assert(os.take(k) =~= os);
        lemma_owner_repos_nonneg(os);
    }
}

proof fn lemma_owner_repos_nonneg(os: Seq<(String, crate::repo::database::bucket::OwnerBucket)>)
    ensures
        0 <= owner_repos(os),
    decreases os.len(),
{
    if os.len() > 0 {
        lemma_owner_repos_nonneg(os.drop_last());
    }
}

proof fn lemma_totals_grow(d: Seq<(String, crate::repo::database::bucket::RemoteBucket)>, i: int)
    requires
        0 <= i <= d.len(),
    ensures
        owner_total(d.take(i)) <= owner_total(d),
        repo_total(d.take(i)) <= repo_total(d),
        0 <= owner_total(d.take(i)),
        0 <= repo_total(d.take(i)),
    decreases d.len() - i,
{
    if i < d.len() {
        lemma_totals_grow(d, i + 1);
        assert(d.take(i + 1).drop_last() =~= d.take(i));
        lemma_owner_repos_nonneg(d[i].1.0@);
        lemma_totals_nonneg(d.take(i));
    } else {
        assert(d.take(i) =~= d);
        lemma_totals_nonneg(d);
    }
}

proof fn lemma_totals_nonneg(d: Seq<(String, crate::repo::database::bucket::RemoteBucket)>)
    ensures
        0 <= owner_total(d),
        0 <= repo_total(d),
    decreases d.len(),
{
    if d.len() > 0 {
        lemma_totals_nonneg(d.drop_last());
        lemma_owner_repos_nonneg(d.last().1.0@);
    }
}

} // verus!
