//! File handles whose read, write and execute operations exist only for the
//! permission they were opened with, plus permission-string parsing.

use vstd::prelude::*;
use core::marker::PhantomData;
use crate::text::{chars_of, decimal, push_decimal, push_str};

verus! {

/// A permission set fixed at compile time: read, write, execute.
pub struct Permission<const R: bool, const W: bool, const X: bool>;

pub type ReadOnly = Permission<true, false, false>;
pub type ReadWrite = Permission<true, true, false>;
pub type ReadExecute = Permission<true, false, true>;
pub type FullAccess = Permission<true, true, true>;
pub type NoAccess = Permission<false, false, false>;

/// `rwx` with `-` for each permission not granted.
pub open spec fn permission_text(r: bool, w: bool, x: bool) -> Seq<char> {
    seq![if r { 'r' } else { '-' }, if w { 'w' } else { '-' }, if x { 'x' } else { '-' }]
}

impl<const R: bool, const W: bool, const X: bool> Permission<R, W, X> {
    /// The permission as `rwx`, `r-x` and so on.
    pub fn display(&self) -> (s: String)
        ensures
            s@ == permission_text(R, W, X),
    {
        let mut s = String::new();
        s.push(if R { 'r' } else { '-' });
        s.push(if W { 'w' } else { '-' });
        s.push(if X { 'x' } else { '-' });
        assert(s@ =~= permission_text(R, W, X));
        s
    }
}

/// An open file whose permission is its type parameter.
pub struct FileHandle<P> {
    path: String,
    content: String,
    _perm: PhantomData<P>,
}

impl<P> FileHandle<P> {
    pub closed spec fn path_view(&self) -> Seq<char> {
        self.path@
    }

    pub closed spec fn content_view(&self) -> Seq<char> {
        self.content@
    }

    pub fn path(&self) -> (s: &str)
        ensures
            s@ == self.path_view(),
    {
        self.path.as_str()
    }
}

impl<const W: bool, const X: bool> FileHandle<Permission<true, W, X>> {
    /// The content; only readable handles have it.
    pub fn read(&self) -> (s: &str)
        ensures
            s@ == self.content_view(),
    {
        self.content.as_str()
    }
}

impl<const R: bool, const X: bool> FileHandle<Permission<R, true, X>> {
    /// Appends `data`; only writable handles can.
    pub fn write(&mut self, data: &str)
        ensures
            final(self).content_view() == old(self).content_view() + data@,
            final(self).path_view() == old(self).path_view(),
    {
        push_str(&mut self.content, data);
    }
}

/// The exit code of running a file: its length in bytes modulo 256.
pub open spec fn exit_code(content: Seq<char>) -> i32 {
    ((vstd::utf8::encode_utf8(content).len() as usize) % 256) as i32
}

impl<const R: bool, const W: bool> FileHandle<Permission<R, W, true>> {
    /// Simulated execution; only executable handles can.
    pub fn execute(&self) -> (code: i32)
        ensures
            code == exit_code(self.content_view()),
            0 <= code < 256,
    {
        (self.content.as_str().len() % 256) as i32
    }
}

/// Opens `path` holding `content`, with the permission `P`.
pub fn open_file<P>(path: &str, content: &str) -> (h: FileHandle<P>)
    ensures
        h.path_view() == path@,
        h.content_view() == content@,
{
    FileHandle { path: path.to_owned(), content: content.to_owned(), _perm: PhantomData }
}

/// A user id; a distinct type so that it cannot be passed as a group id.
#[derive(Clone, Copy, PartialEq, Eq, Debug, Structural)]
pub struct UserId(pub u32);

/// A group id.
#[derive(Clone, Copy, PartialEq, Eq, Debug, Structural)]
pub struct GroupId(pub u32);

impl UserId {
    /// `uid:N`.
    pub fn display(&self) -> (s: String)
        ensures
            s@ == "uid:"@ + decimal(self.0 as nat),
    {
        let mut s = String::new();
        push_str(&mut s, "uid:");
        push_decimal(&mut s, self.0 as u64);
        s
    }
}

impl GroupId {
    /// `gid:N`.
    pub fn display(&self) -> (s: String)
        ensures
            s@ == "gid:"@ + decimal(self.0 as nat),
    {
        let mut s = String::new();
        push_str(&mut s, "gid:");
        push_decimal(&mut s, self.0 as u64);
        s
    }
}

/// `PATH owner=uid:N group=gid:M`.
pub open spec fn file_info_text(path: Seq<char>, owner: UserId, group: GroupId) -> Seq<char> {
    path + " owner="@ + "uid:"@ + decimal(owner.0 as nat) + " group="@ + "gid:"@ + decimal(group.0 as nat)
}

pub fn file_info(path: &str, owner: UserId, group: GroupId) -> (s: String)
    ensures
        s@ == file_info_text(path@, owner, group),
{
    let mut s = String::new();
    push_str(&mut s, path);
    push_str(&mut s, " owner=");
    let o = owner.display();
    push_str(&mut s, o.as_str());
    push_str(&mut s, " group=");
    let g = group.display();
    push_str(&mut s, g.as_str());
    assert(s@ =~= file_info_text(path@, owner, group));
    s
}

/// The flag for one position of a permission string, or the message for a
/// character that does not belong there.
pub open spec fn perm_char(c: char, letter: char, what: Seq<char>) -> Result<bool, Seq<char>> {
    if c == letter {
        Ok(true)
    } else if c == '-' {
        Ok(false)
    } else {
        Err("Invalid "@ + what + " char: '"@ + seq![c] + "'"@)
    }
}

/// What parsing a permission string such as `r-x` gives.
pub open spec fn parse_permissions_spec(s: Seq<char>) -> Result<(bool, bool, bool), Seq<char>> {
    if s.len() != 3 {
        Err("Expected 3 characters, got "@ + decimal(s.len()))
    } else {
        match perm_char(s[0], 'r', "read"@) {
            Err(e) => Err(e),
            Ok(r) => match perm_char(s[1], 'w', "write"@) {
                Err(e) => Err(e),
                Ok(w) => match perm_char(s[2], 'x', "execute"@) {
                    Err(e) => Err(e),
                    Ok(x) => Ok((r, w, x)),
                },
            },
        }
    }
}

/// A permission written out parses back to the same three flags.
pub proof fn law_permission_text_round_trip(r: bool, w: bool, x: bool)
    ensures
        parse_permissions_spec(permission_text(r, w, x)) == Ok::<(bool, bool, bool), Seq<char>>((r, w, x)),
{
}

/// Parsing of permission descriptions such as `rw-`.
pub trait PermissionDescExt {
    /// The characters of the description.
    spec fn desc(&self) -> Seq<char>;

    fn parse_permissions(&self) -> (r: Result<(bool, bool, bool), String>)
        ensures
            match r {
                Ok(t) => parse_permissions_spec(self.desc()) == Ok::<(bool, bool, bool), Seq<char>>(t),
                Err(e) => parse_permissions_spec(self.desc()) == Err::<(bool, bool, bool), Seq<char>>(e@),
            },
    ;
}

fn parse_perm_char(c: char, letter: char, what: &str) -> (r: Result<bool, String>)
    ensures
        match r {
            Ok(b) => perm_char(c, letter, what@) == Ok::<bool, Seq<char>>(b),
            Err(e) => perm_char(c, letter, what@) == Err::<bool, Seq<char>>(e@),
        },
{
    if c == letter {
        Ok(true)
    } else if c == '-' {
        Ok(false)
    } else {
        let mut e = String::new();
        push_str(&mut e, "Invalid ");
        push_str(&mut e, what);
        push_str(&mut e, " char: '");
        e.push(c);
        push_str(&mut e, "'");
        assert(e@ =~= "Invalid "@ + what@ + " char: '"@ + seq![c] + "'"@);
        Err(e)
    }
}

impl<'a> PermissionDescExt for &'a str {
    open spec fn desc(&self) -> Seq<char> {
        (*self)@
    }

    fn parse_permissions(&self) -> (r: Result<(bool, bool, bool), String>) {
        let chars = chars_of(*self);
        if chars.len() != 3 {
            let mut e = String::new();
            push_str(&mut e, "Expected 3 characters, got ");
            push_decimal(&mut e, chars.len() as u64);
            return Err(e);
        }
        let r = match parse_perm_char(chars[0], 'r', "read") {
            Ok(b) => b,
            Err(e) => return Err(e),
        };
        let w = match parse_perm_char(chars[1], 'w', "write") {
            Ok(b) => b,
            Err(e) => return Err(e),
        };
        let x = match parse_perm_char(chars[2], 'x', "execute") {
            Ok(b) => b,
            Err(e) => return Err(e),
        };
        Ok((r, w, x))
    }
}

/// Handles that leave an audit trail: the readable ones.
pub trait Auditable {
    spec fn audit_text(&self) -> Seq<char>;

    fn audit_log(&self) -> (s: String)
        ensures
            s@ == self.audit_text(),
    ;
}

impl<const W: bool, const X: bool> Auditable for FileHandle<Permission<true, W, X>> {
    open spec fn audit_text(&self) -> Seq<char> {
        "[AUDIT] Read access on '"@ + self.path_view() + "'"@
    }

    fn audit_log(&self) -> (s: String) {
        let mut s = String::new();
        push_str(&mut s, "[AUDIT] Read access on '");
        push_str(&mut s, self.path.as_str());
        push_str(&mut s, "'");
        s
    }
}

} // verus!
