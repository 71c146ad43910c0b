//! The host's sample tools: what each reads from its inputs and what it
//! answers. The host runs them asynchronously and speaks JSON with them; the
//! fields are plain strings here.

use vstd::prelude::*;
use crate::graph::InputMap;

verus! {

/// The names and types of a tool's input and output fields.
pub struct ToolSchema {
    pub inputs: InputMap,
    pub outputs: InputMap,
}

/// Echoes its `message` field.
pub struct DebugEchoTool;

/// Reads the file named by its `path` field (simulated).
pub struct FileReadTool;

/// Writes its `content` field to the file named by its `path` field (simulated).
pub struct FileWriteTool;

fn one_field(key: &str, value: &str) -> (m: InputMap)
    ensures
        m@ == Map::<Seq<char>, Seq<char>>::empty().insert(key@, value@),
{
    let mut m = InputMap::new();
    m.insert(String::from_str(key), String::from_str(value));
    m
}

/// What the echo tool answers: `echo` set to the message (empty when there is none).
pub open spec fn echo_answer(inputs: Map<Seq<char>, Seq<char>>) -> Map<Seq<char>, Seq<char>> {
    Map::empty().insert(
        "echo"@,
        if inputs.contains_key("message"@) {
            inputs["message"@]
        } else {
            Seq::empty()
        },
    )
}

/// What the read tool answers: `content` set to a mock of the file's content.
pub open spec fn read_answer(inputs: Map<Seq<char>, Seq<char>>) -> Result<Map<Seq<char>, Seq<char>>, Seq<char>> {
    if inputs.contains_key("path"@) {
        Ok(Map::empty().insert("content"@, "Mock content for "@ + inputs["path"@]))
    } else {
        Err("Missing path"@)
    }
}

/// What the write tool answers: `status` set to `success`.
pub open spec fn write_answer(inputs: Map<Seq<char>, Seq<char>>) -> Result<Map<Seq<char>, Seq<char>>, Seq<char>> {
    if !inputs.contains_key("path"@) {
        Err("Missing path"@)
    } else if !inputs.contains_key("content"@) {
        Err("Missing content"@)
    } else {
        Ok(Map::empty().insert("status"@, "success"@))
    }
}

impl DebugEchoTool {
    pub fn name(&self) -> (r: &str)
        ensures
            r@ == "debug_echo"@,
    {
        "debug_echo"
    }

    pub fn capability(&self) -> (r: &str)
        ensures
            r@ == "sys.debug"@,
    {
        "sys.debug"
    }

    pub fn schema(&self) -> (s: ToolSchema)
        ensures
            s.inputs@ == Map::<Seq<char>, Seq<char>>::empty().insert("message"@, "string"@),
            s.outputs@ == Map::<Seq<char>, Seq<char>>::empty().insert("echo"@, "string"@),
    {
        ToolSchema { inputs: one_field("message", "string"), outputs: one_field("echo", "string") }
    }

    /// The answer to `inputs`.
    pub fn run(&self, inputs: &InputMap) -> (r: InputMap)
        ensures
            r@ == echo_answer(inputs@),
            r@.dom() == Set::<Seq<char>>::empty().insert("echo"@),
            inputs@.contains_key("message"@) ==> r@["echo"@] == inputs@["message"@],
            !inputs@.contains_key("message"@) ==> r@["echo"@].len() == 0,
    {
        match inputs.get("message") {
            Some(m) => one_field("echo", m.as_str()),
            None => {
                proof {
                    reveal_strlit("");
                }
                assert(""@ =~= Seq::<char>::empty());
                one_field("echo", "")
            },
        }
    }
}

impl FileReadTool {
    pub fn name(&self) -> (r: &str)
        ensures
            r@ == "file_read"@,
    {
        "file_read"
    }

    pub fn capability(&self) -> (r: &str)
        ensures
            r@ == "fs.read"@,
    {
        "fs.read"
    }

    pub fn schema(&self) -> (s: ToolSchema)
        ensures
            s.inputs@ == Map::<Seq<char>, Seq<char>>::empty().insert("path"@, "string"@),
            s.outputs@ == Map::<Seq<char>, Seq<char>>::empty().insert("content"@, "string"@),
    {
        ToolSchema { inputs: one_field("path", "string"), outputs: one_field("content", "string") }
    }

    /// The answer to `inputs`, or the error message.
    pub fn run(&self, inputs: &InputMap) -> (r: Result<InputMap, String>)
        ensures
            r matches Ok(m) ==> read_answer(inputs@) == Ok::<Map<Seq<char>, Seq<char>>, Seq<char>>(m@),
            r matches Err(e) ==> read_answer(inputs@) == Err::<Map<Seq<char>, Seq<char>>, Seq<char>>(e@),
            inputs@.contains_key("path"@) ==> (r matches Ok(m) && m@ == Map::<Seq<char>, Seq<char>>::empty().insert(
                "content"@,
                "Mock content for "@ + inputs@["path"@],
            )),
            !inputs@.contains_key("path"@) ==> (r matches Err(e) && e@ == "Missing path"@),
    {
        match inputs.get("path") {
            Some(path) => {
                let mut content = String::from_str("Mock content for ");
                content.append(path.as_str());
                Ok(one_field("content", content.as_str()))
            },
            None => Err(String::from_str("Missing path")),
        }
    }
}

impl FileWriteTool {
    pub fn name(&self) -> (r: &str)
        ensures
            r@ == "file_write"@,
    {
        "file_write"
    }

    pub fn capability(&self) -> (r: &str)
        ensures
            r@ == "fs.write"@,
    {
        "fs.write"
    }

    pub fn schema(&self) -> (s: ToolSchema)
        ensures
            s.inputs@ == Map::<Seq<char>, Seq<char>>::empty().insert("path"@, "string"@).insert(
                "content"@,
                "string"@,
            ),
            s.outputs@ == Map::<Seq<char>, Seq<char>>::empty().insert("status"@, "string"@),
    {
        let mut inputs = InputMap::new();
        inputs.insert(String::from_str("path"), String::from_str("string"));
        inputs.insert(String::from_str("content"), String::from_str("string"));
        ToolSchema { inputs, outputs: one_field("status", "string") }
    }

    /// The answer to `inputs`, or the error message.
    pub fn run(&self, inputs: &InputMap) -> (r: Result<InputMap, String>)
        ensures
            r matches Ok(m) ==> write_answer(inputs@) == Ok::<Map<Seq<char>, Seq<char>>, Seq<char>>(m@),
            r matches Err(e) ==> write_answer(inputs@) == Err::<Map<Seq<char>, Seq<char>>, Seq<char>>(e@),
            inputs@.contains_key("path"@) && inputs@.contains_key("content"@) ==> (r matches Ok(m) && m@
                == Map::<Seq<char>, Seq<char>>::empty().insert("status"@, "success"@)),
            !inputs@.contains_key("path"@) ==> (r matches Err(e) && e@ == "Missing path"@),
            inputs@.contains_key("path"@) && !inputs@.contains_key("content"@) ==> (r matches Err(e) && e@
                == "Missing content"@),
    {
        if inputs.get("path").is_none() {
            return Err(String::from_str("Missing path"));
        }
        if inputs.get("content").is_none() {
            return Err(String::from_str("Missing content"));
        }
        Ok(one_field("status", "success"))
    }
}

} // verus!
