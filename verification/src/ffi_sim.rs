//! The safe database wrapper over a C-style handle: names and queries must
//! not contain NUL, queries are counted while the handle is connected.

use vstd::prelude::*;
use crate::text::chars_of;

verus! {

/// The state behind a C database handle.
pub struct RawDbHandle {
    pub name: String,
    pub query_count: i32,
    pub connected: bool,
}

/// Opens a connected handle named `name` with no queries run.
pub fn db_open(name: &str) -> (h: RawDbHandle)
    ensures
        h.name@ == name@,
        h.query_count == 0,
        h.connected,
{
    RawDbHandle { name: name.to_owned(), query_count: 0, connected: true }
}

/// `-2` for a closed handle; otherwise counts the query and returns `0`.
pub fn db_execute(handle: &mut RawDbHandle) -> (code: i32)
    requires
        old(handle).connected ==> old(handle).query_count < i32::MAX,
    ensures
        !old(handle).connected ==> code == -2 && *final(handle) == *old(handle),
        old(handle).connected ==> code == 0 && final(handle).query_count == old(handle).query_count + 1
            && final(handle).connected && final(handle).name == old(handle).name,
{
    if !handle.connected {
        return -2;
    }
    handle.query_count = handle.query_count + 1;
    0
}

/// Marks the handle closed.
pub fn db_close(handle: &mut RawDbHandle)
    ensures
        !final(handle).connected,
        final(handle).name == old(handle).name,
        final(handle).query_count == old(handle).query_count,
{
    handle.connected = false;
}

/// An open database connection.
pub struct Database {
    handle: RawDbHandle,
}

fn has_nul(s: &str) -> (b: bool)
    ensures
        b == s@.contains('\0'),
{
    let cs = chars_of(s);
    let mut i: usize = 0;
    while i < cs.len()
        invariant
            cs@ == s@,
            i <= cs.len(),
            forall|k: int| 0 <= k < i ==> cs@[k] != '\0',
        decreases cs.len() - i,
    {
        if cs[i] == '\0' {
            return true;
        }
        i = i + 1;
    }
    false
}

impl Database {
    pub closed spec fn name_view(&self) -> Seq<char> {
        self.handle.name@
    }

    pub closed spec fn count_view(&self) -> i32 {
        self.handle.query_count
    }

    #[verifier::type_invariant]
    closed spec fn connected(self) -> bool {
        self.handle.connected
    }

    /// Opens `name`; a name with a NUL character cannot be passed to C.
    pub fn open(name: &str) -> (r: Result<Database, &'static str>)
        ensures
            !name@.contains('\0') ==> (r matches Ok(d) && d.name_view() == name@ && d.count_view() == 0),
            name@.contains('\0') ==> (r matches Err(e) && e@ == "name contains null byte"@),
    {
        if has_nul(name) {
            return Err("name contains null byte");
        }
        Ok(Database { handle: db_open(name) })
    }

    /// Runs `query`; a query with a NUL character is refused.
    pub fn execute(&mut self, query: &str) -> (r: Result<(), &'static str>)
        requires
            old(self).count_view() < i32::MAX,
        ensures
            !query@.contains('\0') ==> r is Ok && final(self).count_view() == old(self).count_view() + 1,
            query@.contains('\0') ==> (r matches Err(e) && e@ == "query contains null byte"@)
                && final(self).count_view() == old(self).count_view(),
            final(self).name_view() == old(self).name_view(),
    {
        proof { use_type_invariant(&*self); }
        if has_nul(query) {
            return Err("query contains null byte");
        }
        let mut h = RawDbHandle { name: String::new(), query_count: 0, connected: true };
        std::mem::swap(&mut h, &mut self.handle);
        let code = db_execute(&mut h);
        std::mem::swap(&mut h, &mut self.handle);
        if code != 0 {
            Err("query execution failed")
        } else {
            Ok(())
        }
    }

    pub fn name(&self) -> (s: &str)
        ensures
            s@ == self.name_view(),
    {
        self.handle.name.as_str()
    }

    pub fn query_count(&self) -> (n: i32)
        ensures
            n == self.count_view(),
    {
        self.handle.query_count
    }

    /// Closes the connection and hands back the closed handle.
    pub fn close(self) -> (h: RawDbHandle)
        ensures
            !h.connected,
            h.name@ == self.name_view(),
            h.query_count == self.count_view(),
    {
        let Database { handle } = self;
        let mut h = handle;
        db_close(&mut h);
        h
    }
}

} // verus!
