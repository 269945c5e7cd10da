//! Where the JSON cache keeps an entry, and how long an entry stays fresh.
use vstd::prelude::*;

use crate::text::{chars_of, push_char};

verus! {

/// A directory of JSON files, one per key, trusted for `ttl_secs` seconds.
pub struct FileCache {
    pub dir: String,
    pub ttl_secs: u64,
}

/// `key` with each `/` written as `__`, so that a key names one file.
pub open spec fn safe_key(key: Seq<char>) -> Seq<char>
    decreases key.len(),
{
    if key.len() == 0 {
        seq![]
    } else if key.last() == '/' {
        safe_key(key.drop_last()) + seq!['_', '_']
    } else {
        safe_key(key.drop_last()).push(key.last())
    }
}

/// The name of the file that holds `key`.
pub open spec fn cache_file_name(key: Seq<char>) -> Seq<char> {
    safe_key(key) + seq!['.', 'j', 's', 'o', 'n']
}

impl FileCache {
    /// A cache in `dir` whose entries stay fresh for `ttl_secs` seconds.
    pub fn with_dir(dir: String, ttl_secs: u64) -> (c: Self)
        ensures
            c.dir == dir,
            c.ttl_secs == ttl_secs,
    {
        FileCache { dir, ttl_secs }
    }

    /// The name of the file in the cache directory that holds `key`.
    pub fn file_name(key: &str) -> (name: String)
        ensures
            name@ == cache_file_name(key@),
    {
        let v = chars_of(key);
        let mut name = String::new();
        let mut i: usize = 0;
        assert(v@.take(0) =~= seq![]);
        while i < v.len()
            invariant
                i <= v@.len(),
                v@ == key@,
                name@ == safe_key(v@.take(i as int)),
            decreases v.len() - i,
        {
            assert(v@.take(i + 1).drop_last() =~= v@.take(i as int));
            assert(v@.take(i + 1).last() == v@[i as int]);
            if v[i] == '/' {
                push_char(&mut name, '_');
                push_char(&mut name, '_');
                assert(name@ =~= safe_key(v@.take(i as int)) + seq!['_', '_']);
            } else {
                push_char(&mut name, v[i]);
            }
            i = i + 1;
        }
        assert(v@.take(v@.len() as int) =~= v@);
        let ghost base = name@;
        push_char(&mut name, '.');
        push_char(&mut name, 'j');
        push_char(&mut name, 's');
        push_char(&mut name, 'o');
        push_char(&mut name, 'n');
        assert(name@ =~= base + seq!['.', 'j', 's', 'o', 'n']);
        name
    }

    /// An entry written `age_nanos` nanoseconds ago is still fresh: its age
    /// does not exceed the time to live.
    pub fn is_fresh(&self, age_nanos: u128) -> (b: bool)
        ensures
            b == (age_nanos <= self.ttl_secs as int * 1_000_000_000),
    {
        let ttl_nanos: u128 = self.ttl_secs as u128 * 1_000_000_000;
        age_nanos <= ttl_nanos
    }
}

/// A key names a single file directly in the cache directory: its file name
/// holds no `/`.
pub proof fn law_file_name_has_no_slash(key: Seq<char>)
    ensures
        !cache_file_name(key).contains('/'),
    decreases key.len(),
{
    if key.len() > 0 {
        law_file_name_has_no_slash(key.drop_last());
    }
    let n = cache_file_name(key);
    let prev = safe_key(key.drop_last());
    assert forall|i: int| 0 <= i < n.len() implies n[i] != '/' by {
        if key.len() > 0 {
            assert(cache_file_name(key.drop_last()) == prev + seq!['.', 'j', 's', 'o', 'n']);
            if i < prev.len() {
                assert(cache_file_name(key.drop_last())[i] == prev[i]);
                assert(!cache_file_name(key.drop_last()).contains('/'));
            }
        }
    }
}

} // verus!
