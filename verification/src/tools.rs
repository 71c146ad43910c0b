//! Capability tools: the only execution primitives, each named, each providing
//! one capability, and the registry that finds them by name.

use vstd::prelude::*;
use crate::graph::InputMap;
use crate::text::{decimal, decimal_string, str_equal};

verus! {

/// A tool the engine can run for a node.
pub trait CapabilityTool: Sized {
    /// The name under which the tool is registered.
    spec fn spec_name(&self) -> Seq<char>;

    /// The capability the tool provides.
    spec fn spec_capability(&self) -> Seq<char>;

    /// What the tool answers for the given inputs: its output, or an error message.
    spec fn spec_execute(&self, inputs: Map<Seq<char>, Seq<char>>) -> Result<Seq<char>, Seq<char>>;

    fn name(&self) -> (r: &str)
        ensures
            r@ == self.spec_name(),
    ;

    fn capability(&self) -> (r: &str)
        ensures
            r@ == self.spec_capability(),
    ;

    fn execute(&self, inputs: &InputMap) -> (r: Result<String, String>)
        ensures
            r matches Ok(out) ==> self.spec_execute(inputs@) == Ok::<Seq<char>, Seq<char>>(out@),
            r matches Err(e) ==> self.spec_execute(inputs@) == Err::<Seq<char>, Seq<char>>(e@),
    ;
}

/// Echoes its `message` input (empty when there is none).
pub struct KernelEchoTool;

/// Reads a file named by its `path` input (the kernel has no file system yet:
/// the read is simulated).
pub struct KernelFileReadTool;

/// Writes its `content` input to the file named by its `path` input (simulated).
pub struct KernelFileWriteTool;

impl CapabilityTool for KernelEchoTool {
    open spec fn spec_name(&self) -> Seq<char> {
        "debug_echo"@
    }

    open spec fn spec_capability(&self) -> Seq<char> {
        "sys.debug"@
    }

    open spec fn spec_execute(&self, inputs: Map<Seq<char>, Seq<char>>) -> Result<Seq<char>, Seq<char>> {
        if inputs.contains_key("message"@) {
            Ok(inputs["message"@])
        } else {
            Ok(Seq::empty())
        }
    }

    fn name(&self) -> (r: &str) {
        "debug_echo"
    }

    fn capability(&self) -> (r: &str) {
        "sys.debug"
    }

    fn execute(&self, inputs: &InputMap) -> (r: Result<String, String>) {
        match inputs.get("message") {
            Some(m) => Ok(m.clone()),
            None => Ok(String::new()),
        }
    }
}

impl CapabilityTool for KernelFileReadTool {
    open spec fn spec_name(&self) -> Seq<char> {
        "file_read"@
    }

    open spec fn spec_capability(&self) -> Seq<char> {
        "fs.read"@
    }

    open spec fn spec_execute(&self, inputs: Map<Seq<char>, Seq<char>>) -> Result<Seq<char>, Seq<char>> {
        if inputs.contains_key("path"@) {
            Ok("Kernel read from "@ + inputs["path"@] + ": [Simulated Content]"@)
        } else {
            Err("Missing path"@)
        }
    }

    fn name(&self) -> (r: &str) {
        "file_read"
    }

    fn capability(&self) -> (r: &str) {
        "fs.read"
    }

    fn execute(&self, inputs: &InputMap) -> (r: Result<String, String>) {
        match inputs.get("path") {
            Some(path) => {
                let mut out = String::from_str("Kernel read from ");
                out.append(path.as_str());
                out.append(": [Simulated Content]");
                Ok(out)
            },
            None => Err(String::from_str("Missing path")),
        }
    }
}

impl CapabilityTool for KernelFileWriteTool {
    open spec fn spec_name(&self) -> Seq<char> {
        "file_write"@
    }

    open spec fn spec_capability(&self) -> Seq<char> {
        "fs.write"@
    }

    open spec fn spec_execute(&self, inputs: Map<Seq<char>, Seq<char>>) -> Result<Seq<char>, Seq<char>> {
        if !inputs.contains_key("path"@) {
            Err("Missing path"@)
        } else if !inputs.contains_key("content"@) {
            Err("Missing content"@)
        } else {
            Ok("Kernel wrote "@ + decimal((vstd::utf8::encode_utf8(inputs["content"@]).len() as usize) as nat)
                + " bytes to "@ + inputs["path"@])
        }
    }

    fn name(&self) -> (r: &str) {
        "file_write"
    }

    fn capability(&self) -> (r: &str) {
        "fs.write"
    }

    fn execute(&self, inputs: &InputMap) -> (r: Result<String, String>) {
        let path = match inputs.get("path") {
            Some(p) => p,
            None => {
                return Err(String::from_str("Missing path"));
            },
        };
        let content = match inputs.get("content") {
            Some(c) => c,
            None => {
                return Err(String::from_str("Missing content"));
            },
        };
        let mut out = String::from_str("Kernel wrote ");
        let bytes = content.as_str().len();
        out.append(decimal_string(bytes).as_str());
        out.append(" bytes to ");
        out.append(path.as_str());
        Ok(out)
    }
}

/// The tools built into the kernel.
pub enum KernelTool {
    Echo(KernelEchoTool),
    FileRead(KernelFileReadTool),
    FileWrite(KernelFileWriteTool),
}

impl CapabilityTool for KernelTool {
    open spec fn spec_name(&self) -> Seq<char> {
        match self {
            KernelTool::Echo(t) => t.spec_name(),
            KernelTool::FileRead(t) => t.spec_name(),
            KernelTool::FileWrite(t) => t.spec_name(),
        }
    }

    open spec fn spec_capability(&self) -> Seq<char> {
        match self {
            KernelTool::Echo(t) => t.spec_capability(),
            KernelTool::FileRead(t) => t.spec_capability(),
            KernelTool::FileWrite(t) => t.spec_capability(),
        }
    }

    open spec fn spec_execute(&self, inputs: Map<Seq<char>, Seq<char>>) -> Result<Seq<char>, Seq<char>> {
        match self {
            KernelTool::Echo(t) => t.spec_execute(inputs),
            KernelTool::FileRead(t) => t.spec_execute(inputs),
            KernelTool::FileWrite(t) => t.spec_execute(inputs),
        }
    }

    fn name(&self) -> (r: &str) {
        match self {
            KernelTool::Echo(t) => t.name(),
            KernelTool::FileRead(t) => t.name(),
            KernelTool::FileWrite(t) => t.name(),
        }
    }

    fn capability(&self) -> (r: &str) {
        match self {
            KernelTool::Echo(t) => t.capability(),
            KernelTool::FileRead(t) => t.capability(),
            KernelTool::FileWrite(t) => t.capability(),
        }
    }

    fn execute(&self, inputs: &InputMap) -> (r: Result<String, String>) {
        match self {
            KernelTool::Echo(t) => t.execute(inputs),
            KernelTool::FileRead(t) => t.execute(inputs),
            KernelTool::FileWrite(t) => t.execute(inputs),
        }
    }
}

/// Tools by name; registering a tool under a taken name replaces the tool there.
pub struct ToolRegistry<T: CapabilityTool> {
    tools: Vec<T>,
}

impl<T: CapabilityTool> ToolRegistry<T> {
    #[verifier::type_invariant]
    spec fn names_unique(&self) -> bool {
        forall|i: int, j: int|
            0 <= i < j < self.tools@.len() ==> self.tools@[i].spec_name() != self.tools@[j].spec_name()
    }

    pub fn new() -> (r: Self)
        ensures
            r@ == Map::<Seq<char>, T>::empty(),
    {
        let r = ToolRegistry { tools: Vec::new() };
        assert(r@ =~= Map::<Seq<char>, T>::empty());
        r
    }

    /// Registers `tool` under its name.
    pub fn register(&mut self, tool: T)
        ensures
            final(self)@ == old(self)@.insert(tool.spec_name(), tool),
    {
        proof {
            use_type_invariant(&*self);
        }
        let ghost old_tools = self.tools@;
        let mut this = ToolRegistry { tools: Vec::new() };
        std::mem::swap(&mut this, self);
        proof {
            use_type_invariant(&this);
        }
        let ToolRegistry { mut tools } = this;
        let mut i: usize = 0;
        while i < tools.len()
            invariant
                i <= tools.len(),
                tools@ == old_tools,
                old_tools == old(self).tools@,
                forall|a: int, b: int| 0 <= a < b < old_tools.len() ==> old_tools[a].spec_name() != old_tools[b].spec_name(),
                forall|j: int| 0 <= j < i ==> old_tools[j].spec_name() != tool.spec_name(),
            decreases tools.len() - i,
        {
            if str_equal(tools[i].name(), tool.name()) {
                let ghost n = tool.spec_name();
                let ghost tg = tool;
                tools.set(i, tool);
                assert(tools@[i as int] == tg);
                proof {
                    assert forall|a: int, b: int| 0 <= a < b < tools@.len()
                        implies tools@[a].spec_name() != tools@[b].spec_name() by {
                        assert(old_tools[a].spec_name() != old_tools[b].spec_name());
                    }
                }
                *self = ToolRegistry { tools };
                proof {
                    Self::lemma_map_of(old_tools);
                    Self::lemma_map_of(self.tools@);
                    let t = self.tools@;
                    assert forall|k: Seq<char>| #[trigger] Self::map_of(t).contains_key(k) <==>
                        Self::map_of(old_tools).insert(n, t[i as int]).contains_key(k) by {
                        if Self::map_of(t).contains_key(k) {
                            let j = choose|j: int| 0 <= j < t.len() && t[j].spec_name() == k;
                            if j != i {
                                assert(old_tools[j].spec_name() == k);
                            }
                        }
                        if Self::map_of(old_tools).contains_key(k) {
                            let j = choose|j: int| 0 <= j < old_tools.len() && old_tools[j].spec_name() == k;
                            if j != i {
                                assert(t[j].spec_name() == k);
                            } else {
                                assert(t[i as int].spec_name() == k);
                            }
                        }
                        if k == n {
                            assert(t[i as int].spec_name() == k);
                        }
                    }
                    assert forall|k: Seq<char>| #[trigger] Self::map_of(t).contains_key(k) implies
                        Self::map_of(t)[k] == Self::map_of(old_tools).insert(n, t[i as int])[k] by {
                        let j = choose|j: int| 0 <= j < t.len() && t[j].spec_name() == k;
                        assert(Self::map_of(t)[t[j].spec_name()] == t[j]);
                        if j != i {
                            assert(Self::map_of(old_tools)[old_tools[j].spec_name()] == old_tools[j]);
                        }
                    }
                    assert(self@ =~= Self::map_of(old_tools).insert(n, t[i as int]));
                    assert(old(self)@ == Self::map_of(old_tools));
                    assert(self@ == old(self)@.insert(tg.spec_name(), tg));
                }
                return;
            }
            i = i + 1;
        }
        let ghost n = tool.spec_name();
        tools.push(tool);
        proof {
            assert forall|a: int, b: int| 0 <= a < b < tools@.len()
                implies tools@[a].spec_name() != tools@[b].spec_name() by {
                if b < old_tools.len() {
                    assert(old_tools[a].spec_name() != old_tools[b].spec_name());
                }
            }
        }
        *self = ToolRegistry { tools };
        proof {
            Self::lemma_map_of(old_tools);
            Self::lemma_map_of(self.tools@);
            let t = self.tools@;
            assert forall|k: Seq<char>| #[trigger] Self::map_of(t).contains_key(k) <==>
                Self::map_of(old_tools).insert(n, t.last()).contains_key(k) by {
                if Self::map_of(t).contains_key(k) && k != n {
                    let i = choose|i: int| 0 <= i < t.len() && t[i].spec_name() == k;
                    assert(old_tools[i].spec_name() == k);
                }
                if Self::map_of(old_tools).contains_key(k) {
                    let i = choose|i: int| 0 <= i < old_tools.len() && old_tools[i].spec_name() == k;
                    assert(t[i].spec_name() == k);
                }
                if k == n {
                    assert(t[t.len() - 1].spec_name() == k);
                }
            }
            assert forall|k: Seq<char>| #[trigger] Self::map_of(t).contains_key(k) implies
                Self::map_of(t)[k] == Self::map_of(old_tools).insert(n, t.last())[k] by {
                let i = choose|i: int| 0 <= i < t.len() && t[i].spec_name() == k;
                assert(Self::map_of(t)[t[i].spec_name()] == t[i]);
                if i < old_tools.len() {
                    assert(Self::map_of(old_tools)[old_tools[i].spec_name()] == old_tools[i]);
                }
            }
            assert(self@ =~= Self::map_of(old_tools).insert(n, t.last()));
        }
    }

    /// The tool registered under `name`.
    pub fn get(&self, name: &str) -> (r: Option<&T>)
        ensures
            r matches Some(t) ==> self@.contains_key(name@) && *t == self@[name@],
            r is None ==> !self@.contains_key(name@),
    {
        proof {
            use_type_invariant(self);
            Self::lemma_map_of(self.tools@);
        }
        let mut i: usize = 0;
        while i < self.tools.len()
            invariant
                i <= self.tools.len(),
                forall|j: int| 0 <= j < i ==> self.tools@[j].spec_name() != name@,
            decreases self.tools.len() - i,
        {
            if str_equal(self.tools[i].name(), name) {
                proof {
                    use_type_invariant(self);
                    Self::lemma_map_of(self.tools@);
                }
                return Some(&self.tools[i]);
            }
            i = i + 1;
        }
        None
    }

    /// The tools of `s` by name, for a sequence with distinct names.
    pub closed spec fn map_of(s: Seq<T>) -> Map<Seq<char>, T> {
        Map::new(
            |k: Seq<char>| exists|i: int| 0 <= i < s.len() && s[i].spec_name() == k,
            |k: Seq<char>| s[choose|i: int| 0 <= i < s.len() && s[i].spec_name() == k],
        )
    }

    proof fn lemma_map_of(s: Seq<T>)
        requires
            forall|i: int, j: int| 0 <= i < j < s.len() ==> s[i].spec_name() != s[j].spec_name(),
        ensures
            forall|k: Seq<char>| #[trigger] Self::map_of(s).contains_key(k) <==> exists|i: int|
                0 <= i < s.len() && s[i].spec_name() == k,
            forall|i: int| 0 <= i < s.len() ==> #[trigger] Self::map_of(s)[s[i].spec_name()] == s[i],
    {
        assert forall|i: int| 0 <= i < s.len() implies #[trigger] Self::map_of(s)[s[i].spec_name()] == s[i] by {
            let k = s[i].spec_name();
            let j = choose|j: int| 0 <= j < s.len() && s[j].spec_name() == k;
            if j != i {
                if j < i {
                    assert(s[j].spec_name() != s[i].spec_name());
                } else {
                    assert(s[i].spec_name() != s[j].spec_name());
                }
            }
        }
    }
}

impl<T: CapabilityTool> View for ToolRegistry<T> {
    type V = Map<Seq<char>, T>;

    closed spec fn view(&self) -> Map<Seq<char>, T> {
        Self::map_of(self.tools@)
    }
}

/// The kernel's registry: `debug_echo`, `file_read` and `file_write`.
pub fn default_registry() -> (r: ToolRegistry<KernelTool>)
    ensures
        r@ == Map::<Seq<char>, KernelTool>::empty().insert(
            "debug_echo"@,
            KernelTool::Echo(KernelEchoTool),
        ).insert("file_read"@, KernelTool::FileRead(KernelFileReadTool)).insert(
            "file_write"@,
            KernelTool::FileWrite(KernelFileWriteTool),
        ),
{
    let mut reg = ToolRegistry::new();
    reg.register(KernelTool::Echo(KernelEchoTool));
    reg.register(KernelTool::FileRead(KernelFileReadTool));
    reg.register(KernelTool::FileWrite(KernelFileWriteTool));
    reg
}

} // verus!
