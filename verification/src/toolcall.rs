//! Tool calls: a model-issued request to run a named local action.
//!
//! A completed turn signals a tool call when its content has the shape
//! `tool:<name>:<argument>`; the name holds no colon, the argument is the
//! rest. The supported actions are a fixed, statically-known set; resolving
//! a name is a pure decision here, while performing the action (a filesystem
//! read) is the caller's side of the bridge.

use vstd::prelude::*;

use crate::errors::ErrorKind;

verus! {

/// A parsed tool call: the action name and its argument.
pub struct ToolCall {
    pub name: Vec<u8>,
    pub arg: Vec<u8>,
}

/// The mathematical model of a `ToolCall`.
pub struct ToolCallModel {
    pub name: Seq<u8>,
    pub arg: Seq<u8>,
}

impl View for ToolCall {
    type V = ToolCallModel;

    open spec fn view(&self) -> ToolCallModel {
        ToolCallModel { name: self.name@, arg: self.arg@ }
    }
}

/// The supported local actions.
pub enum ToolAction {
    /// Read the local file at the given path and hand its bytes back.
    ReadFile(Vec<u8>),
}

/// The mathematical model of a `ToolAction`.
pub enum ToolActionModel {
    ReadFile(Seq<u8>),
}

impl View for ToolAction {
    type V = ToolActionModel;

    open spec fn view(&self) -> ToolActionModel {
        match self {
            ToolAction::ReadFile(p) => ToolActionModel::ReadFile(p@),
        }
    }
}

/// The first position of `b` in `s`.
pub open spec fn find_byte(s: Seq<u8>, b: u8) -> Option<int>
    decreases s.len(),
{
    if s.len() == 0 {
        None
    } else if s[0] == b {
        Some(0int)
    } else {
        match find_byte(s.drop_first(), b) {
            Some(j) => Some(j + 1),
            None => None,
        }
    }
}

/// What `find_byte` finds is the first occurrence; finding nothing means
/// there is none.
pub proof fn lemma_find_byte(s: Seq<u8>, b: u8)
    ensures
        (find_byte(s, b) matches Some(i) ==> 0 <= i < s.len() && s[i] == b && forall|k: int|
            0 <= k < i ==> s[k] != b),
        (find_byte(s, b) is None ==> forall|k: int| 0 <= k < s.len() ==> s[k] != b),
    decreases s.len(),
{
    if s.len() == 0 {
    } else {
        lemma_find_byte(s.drop_first(), b);
        assert(forall|k: int| 1 <= k < s.len() ==> s[k] == s.drop_first()[k - 1]);
    }
}

/// `tool:`
pub open spec fn tool_prefix() -> Seq<u8> {
    seq![0x74u8, 0x6fu8, 0x6fu8, 0x6cu8, 0x3au8]
}

/// The tool call a turn's content signals, if any.
pub open spec fn spec_tool_call(content: Seq<u8>) -> Option<ToolCallModel> {
    if crate::codec::starts(content, tool_prefix()) {
        let rest = content.skip(5);
        match find_byte(rest, 0x3a) {
            Some(i) => Some(ToolCallModel { name: rest.take(i), arg: rest.skip(i + 1) }),
            None => None,
        }
    } else {
        None
    }
}

/// Whether two byte strings are equal.
#[verifier::loop_isolation(false)]
pub fn bytes_eq(a: &Vec<u8>, b: &Vec<u8>) -> (r: bool)
    ensures
        r == (a@ == b@),
{
    if a.len() != b.len() {
        return false;
    }
    let mut k: usize = 0;
    while k < a.len()
        invariant
            k <= a@.len(),
            a@.len() == b@.len(),
            forall|j: int| 0 <= j < k ==> a@[j] == b@[j],
        decreases a@.len() - k,
    {
        if a[k] != b[k] {
            return false;
        }
        k += 1;
    }
    proof {
        assert(a@ =~= b@);
    }
    true
}

/// Copies the byte range `[from, to)` of `v`.
#[verifier::loop_isolation(false)]
fn copy_range(v: &Vec<u8>, from: usize, to: usize) -> (r: Vec<u8>)
    requires
        from <= to <= v@.len(),
    ensures
        r@ == v@.subrange(from as int, to as int),
{
    let mut r: Vec<u8> = Vec::new();
    let mut k: usize = from;
    while k < to
        invariant
            from <= k <= to,
            r@ == v@.subrange(from as int, k as int),
        decreases to - k,
    {
        r.push(v[k]);
        k += 1;
        proof {
            assert(v@.subrange(from as int, k as int) =~= v@.subrange(
                from as int,
                k - 1,
            ).push(v@[k - 1]));
        }
    }
    proof {
        assert(r@ =~= v@.subrange(from as int, to as int));
    }
    r
}

/// Parses the tool-call signal out of a completed turn's content, exactly as
/// `spec_tool_call` says.
#[verifier::loop_isolation(false)]
pub fn parse_tool_call(content: &Vec<u8>) -> (r: Option<ToolCall>)
    ensures
        (r matches Some(c) ==> spec_tool_call(content@) == Some(c@)),
        (r is None ==> spec_tool_call(content@) is None),
{
    if content.len() < 5 || content[0] != 0x74 || content[1] != 0x6f || content[2] != 0x6f
        || content[3] != 0x6c || content[4] != 0x3a {
        proof {
            if crate::codec::starts(content@, tool_prefix()) {
                let t = content@.take(5);
                assert(t[0] == content@[0] && t[1] == content@[1] && t[2] == content@[2] && t[3]
                    == content@[3] && t[4] == content@[4]);
            }
        }
        return None;
    }
    proof {
        assert(content@.take(5) =~= tool_prefix());
    }
    let ghost rest = content@.skip(5);
    // Look for the colon that separates the name from the argument.
    let mut k: usize = 5;
    while k < content.len()
        invariant
            5 <= k <= content@.len(),
            forall|j: int| 0 <= j < k - 5 ==> rest[j] != 0x3a,
        decreases content@.len() - k,
    {
        if content[k] == 0x3a {
            proof {
                assert(rest[k - 5] == 0x3a);
                lemma_find_byte(rest, 0x3a);
                if find_byte(rest, 0x3a) is None {
                    assert(false);
                }
                let i = find_byte(rest, 0x3a)->Some_0;
                assert(i == k - 5);
            }
            let name = copy_range(content, 5, k);
            let arg = copy_range(content, k + 1, content.len());
            proof {
                assert(name@ =~= rest.take(k - 5));
                assert(arg@ =~= rest.skip((k - 5) + 1));
            }
            return Some(ToolCall { name, arg });
        }
        k += 1;
    }
    proof {
        lemma_find_byte(rest, 0x3a);
        assert(forall|j: int| 0 <= j < rest.len() ==> rest[j] != 0x3a);
        if find_byte(rest, 0x3a) is Some {
            let i = find_byte(rest, 0x3a)->Some_0;
            assert(rest[i] == 0x3a);
            assert(false);
        }
    }
    None
}

/// `get_file`: the one action this build knows, mirroring the assistant's
/// ability to ask for a local file's contents by path.
pub open spec fn get_file_name() -> Seq<u8> {
    seq![0x67u8, 0x65u8, 0x74u8, 0x5fu8, 0x66u8, 0x69u8, 0x6cu8, 0x65u8]
}

/// Exec copy of `get_file_name()`.
fn get_file_name_vec() -> (v: Vec<u8>)
    ensures
        v@ == get_file_name(),
{
    let mut v: Vec<u8> = Vec::new();
    v.push(0x67);
    v.push(0x65);
    v.push(0x74);
    v.push(0x5f);
    v.push(0x66);
    v.push(0x69);
    v.push(0x6c);
    v.push(0x65);
    proof {
        assert(v@ =~= get_file_name());
    }
    v
}

/// Decides a tool call: a supported name becomes its action, carrying the
/// argument through unchanged; an unknown name is refused, never retried.
pub fn resolve_tool(call: ToolCall) -> (r: Result<ToolAction, ErrorKind>)
    ensures
        call@.name == get_file_name() ==> (r matches Ok(a) && a matches ToolAction::ReadFile(p)
            && p@ == call@.arg),
        call@.name != get_file_name() ==> (r matches Err(k) && k == ErrorKind::UnsupportedTool),
{
    let gf = get_file_name_vec();
    if bytes_eq(&call.name, &gf) {
        Ok(ToolAction::ReadFile(call.arg))
    } else {
        Err(ErrorKind::UnsupportedTool)
    }
}

} // verus!
