use vstd::prelude::*;
use vstd::string::{StrSliceExecFns, StringExecFns};
use vstd::utf8::{decode_utf8, valid_utf8};

verus! {

/// The two stages of a shader program, as source text.
pub struct Shader {
    pub vertex: String,
    pub fragment: String,
}

impl Shader {
    pub fn new(vertex: &str, fragment: &str) -> (r: Shader)
        ensures
            r.vertex@ == vertex@,
            r.fragment@ == fragment@,
    {
        Shader { vertex: String::from_str(vertex), fragment: String::from_str(fragment) }
    }
}

/// The position of the first line break of `c`, if any.
pub open spec fn first_newline(c: Seq<char>) -> Option<nat>
    decreases c.len(),
{
    if c.len() == 0 {
        None
    } else if c[0] == '\n' {
        Some(0)
    } else {
        match first_newline(c.drop_first()) {
            Some(k) => Some(k + 1),
            None => None,
        }
    }
}

/// The shader read from a source file: the file must be UTF-8 text that
/// starts with a `#version` directive on a line of its own. The fragment stage
/// is the text itself; the vertex stage is the text with `#define VERTEX`
/// inserted on the line after the directive.
pub open spec fn shader_from_source(bytes: Seq<u8>) -> Result<(Seq<char>, Seq<char>), Seq<char>> {
    if !valid_utf8(bytes) {
        Err("failed to read shader utf8"@)
    } else {
        let c = decode_utf8(bytes);
        if !"#version"@.is_prefix_of(c) {
            Err("expected version directive"@)
        } else {
            match first_newline(c) {
                Some(p) => Ok(
                    (c.take(p + 1 as int) + "#define VERTEX\n"@ + c.skip(p + 1 as int), c),
                ),
                None => Err("expected newline after version directive"@),
            }
        }
    }
}

/// Relies on `std::str::from_utf8`: the bytes decode when, and only when,
/// they are valid UTF-8, into the characters they encode.
#[verifier::external_body]
fn utf8_text(bytes: &[u8]) -> (r: Option<String>)
    ensures
        r is Some <==> valid_utf8(bytes@),
        r matches Some(s) ==> s@ == decode_utf8(bytes@),
{
    std::str::from_utf8(bytes).ok().map(|s| s.to_string())
}

proof fn lemma_first_newline(c: Seq<char>, j: int)
    requires
        0 <= j <= c.len(),
        forall|i: int| 0 <= i < j ==> c[i] != '\n',
    ensures
        j < c.len() && c[j] == '\n' ==> first_newline(c) == Some(j as nat),
        j == c.len() ==> first_newline(c) is None,
    decreases j,
{
    if c.len() > 0 && j > 0 {
        lemma_first_newline(c.drop_first(), j - 1);
    }
}

/// Turns the bytes of a shader source file into a shader.
pub fn process_shader_source(bytes: Vec<u8>) -> (r: Result<Shader, String>)
    ensures
        match (r, shader_from_source(bytes@)) {
            (Ok(s), Ok((v, f))) => s.vertex@ == v && s.fragment@ == f,
            (Err(e), Err(m)) => e@ == m,
            _ => false,
        },
{
    let text = match utf8_text(bytes.as_slice()) {
        Some(t) => t,
        None => {
            return Err(String::from_str("failed to read shader utf8"));
        },
    };
    let contents = text.as_str();
    let ghost c = contents@;
    let n = contents.unicode_len();
    let directive = "#version";
    proof {
        reveal_strlit("#version");
    }
    let mut prefix = n >= 8;
    let mut i: usize = 0;
    while prefix && i < 8
        invariant
            i <= 8,
            n == c.len(),
            contents@ == c,
            directive@.len() == 8,
            prefix ==> n >= 8,
            prefix ==> forall|j: int| 0 <= j < i ==> c[j] == directive@[j],
            !prefix ==> !directive@.is_prefix_of(c),
        decreases 8 - i + if prefix { 1int } else { 0 },
    {
        if contents.get_char(i) != directive.get_char(i) {
            prefix = false;
        } else {
            i += 1;
        }
    }
    if !prefix {
        return Err(String::from_str("expected version directive"));
    }
    assert(directive@.is_prefix_of(c)) by {
        assert(c.subrange(0, 8) =~= directive@);
    }
    let mut p: usize = 0;
    while p < n && contents.get_char(p) != '\n'
        invariant
            p <= n,
            n == c.len(),
            contents@ == c,
            forall|j: int| 0 <= j < p ==> c[j] != '\n',
        decreases n - p,
    {
        p += 1;
    }
    proof {
        lemma_first_newline(c, p as int);
    }
    if p == n {
        return Err(String::from_str("expected newline after version directive"));
    }
    let mut vertex = String::from_str(contents.substring_char(0, p + 1));
    vertex.append("#define VERTEX\n");
    vertex.append(contents.substring_char(p + 1, n));
    assert(vertex@ =~= c.take(p + 1) + "#define VERTEX\n"@ + c.skip(p + 1));
    Ok(Shader { vertex, fragment: String::from_str(contents) })
}

} // verus!
