//! Arguments of the `mount` and `execve` system calls as C strings.
use vstd::prelude::*;
use vstd::string::*;
use vstd::utf8::*;

use crate::text::texts;

verus! {

/// A string holds a NUL byte and cannot be a C string.
#[derive(Clone, Copy, PartialEq, Eq, Debug, Structural)]
pub struct NulError;

impl NulError {
    /// The message of the error.
    pub fn message(self) -> (r: &'static str)
        ensures
            r@ == "string contains a NUL byte"@,
    {
        "string contains a NUL byte"
    }
}

/// Whether the UTF-8 bytes of `s` hold no NUL.
pub open spec fn nul_free(s: Seq<char>) -> bool {
    !encode_utf8(s).contains(0)
}

/// Whether no text of `v` holds a NUL.
pub open spec fn all_nul_free(v: Seq<Seq<char>>) -> bool {
    forall|i: int| 0 <= i < v.len() ==> nul_free(#[trigger] v[i])
}

/// `s` as a C string: its UTF-8 bytes and a NUL.
pub open spec fn c_bytes(s: Seq<char>) -> Seq<u8> {
    encode_utf8(s).push(0)
}

/// The texts of `v` as C strings.
pub open spec fn all_c_bytes(v: Seq<Seq<char>>) -> Seq<Seq<u8>> {
    v.map_values(|s: Seq<char>| c_bytes(s))
}

/// The bytes of the members of `v`.
pub open spec fn byte_views(v: Seq<Vec<u8>>) -> Seq<Seq<u8>> {
    v.map_values(|x: Vec<u8>| x@)
}

/// ASCII text without NUL characters holds no NUL byte.
pub proof fn lemma_ascii_nul_free(s: Seq<char>)
    requires
        forall|i: int| 0 <= i < s.len() ==> '\0' < #[trigger] s[i] && s[i] <= '\u{7f}',
    ensures
        nul_free(s),
{
    assert(is_ascii_chars(s)) by {
        assert forall|i: int| 0 <= i < s.len() implies '\0' <= #[trigger] s[i] <= '\u{7f}' by {
            assert('\0' < s[i] && s[i] <= '\u{7f}');
        }
    }
    is_ascii_chars_encode_utf8(s);
    assert forall|i: int| 0 <= i < encode_utf8(s).len() implies encode_utf8(s)[i] != 0 by {
        assert(encode_utf8(s)[i] == s[i] as u8);
        assert('\0' < s[i] && s[i] <= '\u{7f}');
    }
}

/// Turns a string into a C string.
pub fn cstr(s: &str) -> (r: Result<Vec<u8>, NulError>)
    ensures
        match r {
            Ok(b) => nul_free(s@) && b@ == c_bytes(s@),
            Err(_) => !nul_free(s@),
        },
{
    let bytes = s.as_bytes();
    let mut out: Vec<u8> = Vec::new();
    let mut i: usize = 0;
    while i < bytes.len()
        invariant
            i <= bytes@.len(),
            bytes@ == encode_utf8(s@),
            out@ == bytes@.take(i as int),
            forall|k: int| 0 <= k < i ==> bytes@[k] != 0,
        decreases bytes@.len() - i,
    {
        if bytes[i] == 0 {
            assert(bytes@.contains(bytes@[i as int]));
            return Err(NulError);
        }
        out.push(bytes[i]);
        i += 1;
        assert(out@ =~= bytes@.take(i as int));
    }
    assert(bytes@.take(i as int) =~= bytes@);
    out.push(0);
    Ok(out)
}

fn cstrs(v: &Vec<String>) -> (r: Result<Vec<Vec<u8>>, NulError>)
    ensures
        match r {
            Ok(b) => all_nul_free(texts(v@)) && byte_views(b@) == all_c_bytes(texts(v@)),
            Err(_) => !all_nul_free(texts(v@)),
        },
{
    let ghost all = texts(v@);
    let mut out: Vec<Vec<u8>> = Vec::new();
    let mut i: usize = 0;
    while i < v.len()
        invariant
            i <= v@.len(),
            all == texts(v@),
            out@.len() == i,
            forall|k: int| 0 <= k < i ==> nul_free(#[trigger] all[k]),
            forall|k: int| 0 <= k < i ==> (#[trigger] out@[k])@ == c_bytes(all[k]),
        decreases v@.len() - i,
    {
        assert(all[i as int] == v@[i as int]@);
        match cstr(v[i].as_str()) {
            Ok(b) => {
                out.push(b);
            },
            Err(_) => {
                return Err(NulError);
            },
        }
        i += 1;
    }
    assert(byte_views(out@) =~= all_c_bytes(all));
    Ok(out)
}

/// One call of `mount(source, target, fstype, flags, NULL)`.
pub struct MountCall {
    pub source: Vec<u8>,
    pub target: Vec<u8>,
    pub fstype: Vec<u8>,
    pub flags: u64,
}

/// The arguments of a mount.
pub fn mount(source: &str, target: &str, fstype: &str, flags: u32) -> (r: Result<
    MountCall,
    NulError,
>)
    ensures
        r is Ok <==> nul_free(source@) && nul_free(target@) && nul_free(fstype@),
        r matches Ok(call) ==> {
            &&& call.source@ == c_bytes(source@)
            &&& call.target@ == c_bytes(target@)
            &&& call.fstype@ == c_bytes(fstype@)
            &&& call.flags == flags
        },
{
    let source = match cstr(source) {
        Ok(b) => b,
        Err(e) => {
            return Err(e);
        },
    };
    let target = match cstr(target) {
        Ok(b) => b,
        Err(e) => {
            return Err(e);
        },
    };
    let fstype = match cstr(fstype) {
        Ok(b) => b,
        Err(e) => {
            return Err(e);
        },
    };
    Ok(MountCall { source, target, fstype, flags: flags as u64 })
}

/// One call of `execve(path, argv, envp)`.
pub struct ExecveCall {
    pub path: Vec<u8>,
    pub argv: Vec<Vec<u8>>,
    pub envp: Vec<Vec<u8>>,
}

/// The arguments of a program execution.
pub fn execve(path: &str, argv: &Vec<String>, envp: &Vec<String>) -> (r: Result<
    ExecveCall,
    NulError,
>)
    ensures
        r is Ok <==> nul_free(path@) && all_nul_free(texts(argv@)) && all_nul_free(texts(envp@)),
        r matches Ok(call) ==> {
            &&& call.path@ == c_bytes(path@)
            &&& byte_views(call.argv@) == all_c_bytes(texts(argv@))
            &&& byte_views(call.envp@) == all_c_bytes(texts(envp@))
        },
{
    let path = match cstr(path) {
        Ok(b) => b,
        Err(e) => {
            return Err(e);
        },
    };
    let argv = match cstrs(argv) {
        Ok(b) => b,
        Err(e) => {
            return Err(e);
        },
    };
    let envp = match cstrs(envp) {
        Ok(b) => b,
        Err(e) => {
            return Err(e);
        },
    };
    Ok(ExecveCall { path, argv, envp })
}

/// A text can be a C string exactly if none of its UTF-8 bytes is NUL, and a
/// list of texts exactly if each of them can.
pub proof fn law_c_string_exactly_if(s: Seq<char>, v: Seq<Seq<char>>)
    ensures
        nul_free(s) <==> forall|i: int|
            0 <= i < encode_utf8(s).len() ==> #[trigger] encode_utf8(s)[i] != 0,
        all_nul_free(Seq::empty()),
        all_nul_free(v.push(s)) <==> all_nul_free(v) && nul_free(s),
{
    let b = encode_utf8(s);
    if nul_free(s) {
        assert forall|i: int| 0 <= i < b.len() implies #[trigger] b[i] != 0 by {
            assert(b.contains(b[i]));
        }
    }
    let w = v.push(s);
    if all_nul_free(w) {
        assert(w[v.len() as int] == s);
        assert forall|i: int| 0 <= i < v.len() implies nul_free(#[trigger] v[i]) by {
            assert(nul_free(w[i]));
        }
    }
}

/// A list of texts becomes a list of C strings of the same length, text by
/// text.
pub proof fn law_c_strings_one_by_one(v: Seq<Seq<char>>, w: Seq<Vec<u8>>)
    ensures
        all_c_bytes(v).len() == v.len(),
        forall|i: int| 0 <= i < v.len() ==> #[trigger] all_c_bytes(v)[i] == c_bytes(v[i]),
        byte_views(w).len() == w.len(),
        forall|i: int| 0 <= i < w.len() ==> #[trigger] byte_views(w)[i] == w[i]@,
{
}

/// A C string ends with its only NUL, so that nothing of the text is lost to
/// a reader that stops there: the text can be decoded from it.
pub proof fn law_c_string_holds_the_text(s: Seq<char>)
    requires
        nul_free(s),
    ensures
        c_bytes(s).last() == 0,
        forall|i: int| 0 <= i < c_bytes(s).len() - 1 ==> #[trigger] c_bytes(s)[i] != 0,
        crate::elf::until_nul(c_bytes(s)) == encode_utf8(s),
        decode_utf8(crate::elf::until_nul(c_bytes(s))) == s,
{
    let b = c_bytes(s);
    assert forall|i: int| 0 <= i < b.len() - 1 implies #[trigger] b[i] != 0 by {
        assert(encode_utf8(s).contains(encode_utf8(s)[i]));
    }
    crate::elf::lemma_until_nul(b, b.len() - 1);
    assert(b.take(b.len() - 1) =~= encode_utf8(s));
    encode_utf8_decode_utf8(s);
}

} // verus!
