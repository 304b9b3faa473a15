//! The local CVE cache: one `<CVE id>.json` file per entry in a directory.
use vstd::prelude::*;
use crate::text::{chars_of, string_of, append_chars, slice_of};
use crate::services::{copy_string, string_views};

verus! {

/// A cache directory; the files in it are read and written by the caller.
pub struct CveCache {
    cache_dir: String,
}

/// `Path::join` on Unix: an absolute `name` replaces `dir`; otherwise a `/`
/// goes between them unless `dir` is empty or already ends with one.
pub open spec fn join_path(dir: Seq<char>, name: Seq<char>) -> Seq<char> {
    if name.len() > 0 && name[0] == '/' {
        name
    } else if dir.len() > 0 && dir.last() != '/' {
        dir + seq!['/'] + name
    } else {
        dir + name
    }
}

/// The name of the cache file of a CVE.
pub open spec fn cache_file_name(cve_id: Seq<char>) -> Seq<char> {
    cve_id + ".json"@
}

/// Index of the last `.` in a file name, if any.
pub open spec fn last_dot(name: Seq<char>) -> Option<int>
    decreases name.len(),
{
    if name.len() == 0 {
        None
    } else if name.last() == '.' {
        Some(name.len() - 1)
    } else {
        last_dot(name.drop_last())
    }
}

/// The CVE id that a file of the cache directory stands for: its stem, where
/// its extension (`Path::extension`) is `json`. A name whose only dot leads
/// has no extension.
pub open spec fn cached_id_of(name: Seq<char>) -> Option<Seq<char>> {
    match last_dot(name) {
        Some(k) => if k > 0 && name.skip(k + 1) == "json"@ {
            Some(name.take(k))
        } else {
            None
        },
        None => None,
    }
}

pub open spec fn cached_ids_of(names: Seq<Seq<char>>) -> Seq<Seq<char>>
    decreases names.len(),
{
    if names.len() == 0 {
        Seq::<Seq<char>>::empty()
    } else {
        let prev = cached_ids_of(names.drop_last());
        match cached_id_of(names.last()) {
            Some(id) => prev.push(id),
            None => prev,
        }
    }
}

proof fn lemma_last_dot_bounds(name: Seq<char>)
    ensures
        last_dot(name) matches Some(k) ==> 0 <= k < name.len() && name[k] == '.' && forall|q: int|
            k < q < name.len() ==> name[q] != '.',
        last_dot(name) is None ==> forall|q: int| 0 <= q < name.len() ==> name[q] != '.',
    decreases name.len(),
{
    if name.len() > 0 && name.last() != '.' {
        let init = name.drop_last();
        lemma_last_dot_bounds(init);
        assert forall|q: int| 0 <= q < init.len() implies init[q] == name[q] by {}
    }
}

fn find_last_dot(name: &[char]) -> (res: Option<usize>)
    ensures
        match res {
            Some(k) => last_dot(name@) == Some(k as int),
            None => last_dot(name@) is None,
        },
{
    let mut j: usize = name.len();
    assert(name@.take(j as int) =~= name@);
    while j > 0
        invariant
            j <= name@.len(),
            last_dot(name@) == last_dot(name@.take(j as int)),
        decreases j,
    {
        assert(name@.take(j as int).last() == name@[j - 1]);
        if name[j - 1] == '.' {
            return Some(j - 1);
        }
        assert(name@.take(j as int).drop_last() =~= name@.take(j - 1));
        j = j - 1;
    }
    None
}

fn cached_id_chars(name: &[char]) -> (res: Option<Vec<char>>)
    ensures
        match res {
            Some(v) => cached_id_of(name@) == Some(v@),
            None => cached_id_of(name@) is None,
        },
{
    proof {
        lemma_last_dot_bounds(name@);
    }
    match find_last_dot(name) {
        Some(k) => {
            if k == 0 {
                return None;
            }
            assert(k < name@.len());
            assert(name@.len() == name.len());
            let ext = slice_of(name, k + 1, name.len());
            let json = chars_of("json");
            assert(ext@ =~= name@.skip(k + 1));
            if crate::text::chars_eq(ext.as_slice(), json.as_slice()) {
                let stem = slice_of(name, 0, k);
                assert(stem@ =~= name@.take(k as int));
                Some(stem)
            } else {
                None
            }
        },
        None => None,
    }
}

impl CveCache {
    /// A cache kept in `cache_dir`.
    pub fn new(cache_dir: &str) -> (res: CveCache)
        ensures
            res.dir() == cache_dir@,
    {
        let d = chars_of(cache_dir);
        CveCache { cache_dir: string_of(d.as_slice()) }
    }

    pub closed spec fn dir(&self) -> Seq<char> {
        self.cache_dir@
    }

    /// The directory of the cache.
    pub fn cache_dir(&self) -> (res: String)
        ensures
            res@ == self.dir(),
    {
        copy_string(&self.cache_dir)
    }

    /// The path of the cache file of a CVE.
    pub fn cache_file_path(&self, cve_id: &str) -> (res: String)
        ensures
            res@ == join_path(self.dir(), cache_file_name(cve_id@)),
    {
        let mut name = chars_of(cve_id);
        let ext = chars_of(".json");
        append_chars(&mut name, ext.as_slice());
        let d = chars_of(self.cache_dir.as_str());
        if name.len() > 0 && name[0] == '/' {
            return string_of(name.as_slice());
        }
        let mut p = d;
        if p.len() > 0 && p[p.len() - 1] != '/' {
            p.push('/');
        }
        append_chars(&mut p, name.as_slice());
        string_of(p.as_slice())
    }

    /// The CVE ids held in the cache, given the names of the files in its
    /// directory, in the same order.
    pub fn cached_ids(&self, file_names: &Vec<String>) -> (res: Vec<String>)
        ensures
            string_views(res@) == cached_ids_of(string_views(file_names@)),
    {
        let ghost ns = string_views(file_names@);
        let mut out: Vec<String> = Vec::new();
        let mut i: usize = 0;
        assert(string_views(out@) =~= cached_ids_of(ns.take(0)));
        while i < file_names.len()
            invariant
                i <= file_names@.len(),
                ns == string_views(file_names@),
                string_views(out@) == cached_ids_of(ns.take(i as int)),
            decreases file_names.len() - i,
        {
            assert(ns.take(i + 1).drop_last() =~= ns.take(i as int));
            assert(ns.take(i + 1).last() == file_names@[i as int]@);
            let c = chars_of(file_names[i].as_str());
            match cached_id_chars(c.as_slice()) {
                Some(id) => {
                    let ghost before = string_views(out@);
                    out.push(string_of(id.as_slice()));
                    assert(string_views(out@) =~= before.push(id@));
                },
                None => {},
            }
            i = i + 1;
        }
        assert(ns.take(file_names@.len() as int) =~= ns);
        out
    }
}

/// The cache file of a CVE (a non-empty id that does not start with `/`)
/// lies in the cache directory and is named after the CVE with the `.json`
/// extension, and `cached_ids` reads that name back as the same id.
pub proof fn lemma_cache_path_roundtrip(dir: Seq<char>, cve_id: Seq<char>)
    requires
        cve_id.len() > 0,
        cve_id[0] != '/',
    ensures
        dir.len() > 0 && dir.last() != '/' ==> join_path(dir, cache_file_name(cve_id)) == dir
            + seq!['/'] + cve_id + ".json"@,
        cached_id_of(cache_file_name(cve_id)) == Some(cve_id),
{
    let name = cache_file_name(cve_id);
    reveal_strlit(".json");
    reveal_strlit("json");
    let n: int = cve_id.len() as int;
    let a = name.drop_last();
    let b = a.drop_last();
    let c = b.drop_last();
    let d = c.drop_last();
    assert(d =~= name.take(n + 1));
    assert(d.last() == '.');
    assert(last_dot(d) == Some(n));
    assert(c.last() == 'j');
    assert(last_dot(c) == Some(n));
    assert(b.last() == 's');
    assert(last_dot(b) == Some(n));
    assert(a.last() == 'o');
    assert(last_dot(a) == Some(n));
    assert(name.last() == 'n');
    assert(last_dot(name) == Some(n));
    assert(name.skip(n + 1) =~= "json"@);
    assert(name.take(n) =~= cve_id);
    assert(name[0] == cve_id[0]);
}

} // verus!
