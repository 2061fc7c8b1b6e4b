use vstd::prelude::*;
use crate::text::{push_char, same_text};

verus! {

/// An external terminal tool that can show the logs.
#[derive(Clone, Debug)]
pub struct ExternalTool {
    /// Name of the tool
    pub name: String,
    /// Command whose presence tells that the tool is installed
    pub check_cmd: String,
    /// Command that runs the tool
    pub run_cmd: String,
    /// Arguments given to the tool
    pub args: Vec<String>,
    /// What the tool is good for
    pub description: String,
    /// Whether the tool reads from standard input
    pub reads_stdin: bool,
    /// Whether the tool needs a file instead
    pub needs_file: bool,
}

/// The fields of a tool as plain values.
pub type ToolModel = (Seq<char>, Seq<char>, Seq<char>, Seq<Seq<char>>, Seq<char>, bool, bool);

pub open spec fn strings_view(v: Seq<String>) -> Seq<Seq<char>> {
    v.map_values(|s: String| s@)
}

pub open spec fn tool_model(t: ExternalTool) -> ToolModel {
    (t.name@, t.check_cmd@, t.run_cmd@, strings_view(t.args@), t.description@, t.reads_stdin, t.needs_file)
}

pub open spec fn tool_models(v: Seq<ExternalTool>) -> Seq<ToolModel> {
    v.map_values(|t: ExternalTool| tool_model(t))
}

pub open spec fn entry(name: &str, cmd: &str, args: Seq<Seq<char>>, description: &str) -> ToolModel {
    (name@, cmd@, cmd@, args, description@, true, false)
}

/// The tools that are known, in this order.
pub open spec fn catalog() -> Seq<ToolModel> {
    seq![
        entry("jless", "jless", seq!["--no-auto-expand"@], "JSON viewer with syntax highlighting and navigation"),
        entry("fx", "fx", seq![], "Interactive JSON viewer with search and filtering"),
        entry("visidata", "vd", seq!["-f"@, "jsonl"@], "Interactive spreadsheet/data analysis tool for structured data"),
        entry("tabview", "tabview", seq![], "Table viewer for structured data"),
        entry("lnav", "lnav", seq![], "Advanced log file viewer with SQL queries and filtering"),
        entry("gonzo", "gonzo", seq![], "Real-time log analysis terminal UI"),
        entry("csvtk", "csvtk", seq!["view"@], "CSV/TSV viewer and processor"),
        entry("less", "less", seq!["-R"@, "-S"@], "Text viewer with search and navigation (fallback)"),
    ]
}

/// `cmd` is among the installed commands.
pub open spec fn is_installed(installed: Seq<String>, cmd: Seq<char>) -> bool {
    exists|k: int| 0 <= k < installed.len() && installed[k]@ == cmd
}

/// The tools whose check command is installed, in order.
pub open spec fn keep_installed(tools: Seq<ToolModel>, installed: Seq<String>) -> Seq<ToolModel>
    decreases tools.len(),
{
    if tools.len() == 0 {
        Seq::empty()
    } else {
        keep_installed(tools.drop_last(), installed) + if is_installed(installed, tools.last().1) {
            seq![tools.last()]
        } else {
            Seq::empty()
        }
    }
}

fn owned(s: &str) -> (r: String)
    ensures
        r@ == s@,
{
    String::from_str(s)
}

fn make_tool(name: &str, cmd: &str, args: Vec<String>, description: &str) -> (r: ExternalTool)
    ensures
        tool_model(r) == entry(name, cmd, strings_view(args@), description),
{
    ExternalTool {
        name: owned(name),
        check_cmd: owned(cmd),
        run_cmd: owned(cmd),
        args,
        description: owned(description),
        reads_stdin: true,
        needs_file: false,
    }
}

/// Whether `cmd` is among the installed commands.
fn installed_contains(installed: &Vec<String>, cmd: &String) -> (r: bool)
    ensures
        r == is_installed(installed@, cmd@),
{
    let mut k: usize = 0;
    while k < installed.len()
        invariant
            k <= installed@.len(),
            forall|j: int| 0 <= j < k ==> installed@[j]@ != cmd@,
        decreases installed@.len() - k,
    {
        if installed[k] == *cmd {
            return true;
        }
        k = k + 1;
    }
    false
}

proof fn lemma_keep_push(tools: Seq<ToolModel>, t: ToolModel, installed: Seq<String>)
    ensures
        keep_installed(tools.push(t), installed) == keep_installed(tools, installed) + if is_installed(
            installed,
            t.1,
        ) {
            seq![t]
        } else {
            Seq::empty()
        },
{
    assert(tools.push(t).drop_last() =~= tools);
}

impl ExternalTool {
    /// All known tools, installed or not.
    pub fn all_tools() -> (r: Vec<ExternalTool>)
        ensures
            tool_models(r@) == catalog(),
    {
        let mut v: Vec<ExternalTool> = Vec::new();
        v.push(make_tool("jless", "jless", vec![owned("--no-auto-expand")], "JSON viewer with syntax highlighting and navigation"));
        v.push(make_tool("fx", "fx", Vec::new(), "Interactive JSON viewer with search and filtering"));
        v.push(make_tool("visidata", "vd", vec![owned("-f"), owned("jsonl")], "Interactive spreadsheet/data analysis tool for structured data"));
        v.push(make_tool("tabview", "tabview", Vec::new(), "Table viewer for structured data"));
        v.push(make_tool("lnav", "lnav", Vec::new(), "Advanced log file viewer with SQL queries and filtering"));
        v.push(make_tool("gonzo", "gonzo", Vec::new(), "Real-time log analysis terminal UI"));
        v.push(make_tool("csvtk", "csvtk", vec![owned("view")], "CSV/TSV viewer and processor"));
        v.push(make_tool("less", "less", vec![owned("-R"), owned("-S")], "Text viewer with search and navigation (fallback)"));
        proof {
            assert(tool_models(v@) =~~= catalog());
        }
        v
    }

    /// The known tools whose check command is among `installed`, in order.
    pub fn get_available_tools(installed: &Vec<String>) -> (r: Vec<ExternalTool>)
        ensures
            tool_models(r@) == keep_installed(catalog(), installed@),
    {
        let mut all = Self::all_tools();
        let mut out: Vec<ExternalTool> = Vec::new();
        let ghost models = tool_models(all@);
        let ghost done: int = 0;
        proof {
            assert(models.take(0) =~= Seq::<ToolModel>::empty());
            assert(models.skip(0) =~= models);
        }
        while all.len() > 0
            invariant
                0 <= done <= models.len(),
                models == catalog(),
                tool_models(all@) == models.skip(done),
                tool_models(out@) == keep_installed(models.take(done), installed@),
            decreases all@.len(),
        {
            let keep = installed_contains(installed, &all[0].check_cmd);
            let ghost rest = all@;
            let t = all.remove(0);
            proof {
                assert(tool_models(rest).len() == rest.len());
                assert(done < models.len());
                assert(tool_models(rest)[0] == tool_model(t));
                assert(models.skip(done)[0] == models[done]);
                assert(models.take(done + 1) =~= models.take(done).push(models[done]));
                lemma_keep_push(models.take(done), models[done], installed@);
                assert(all@ =~= rest.skip(1));
                assert(tool_models(rest.skip(1)) =~= tool_models(rest).skip(1));
                assert(models.skip(done).skip(1) =~= models.skip(done + 1));
            }
            if keep {
                out.push(t);
            }
            proof {
                if keep {
                    assert(tool_models(out@) =~= keep_installed(models.take(done), installed@).push(models[done]));
                } else {
                    assert(keep_installed(models.take(done), installed@) + Seq::<ToolModel>::empty() =~= keep_installed(models.take(done), installed@));
                }
                done = done + 1;
            }
        }
        proof {
            assert(models.take(done) =~= models);
        }
        out
    }
}

pub open spec fn ref_models(v: Seq<&ExternalTool>) -> Seq<ToolModel> {
    v.map_values(|t: &ExternalTool| tool_model(*t))
}

pub open spec fn names_of(ms: Seq<ToolModel>) -> Seq<Seq<char>> {
    ms.map_values(|m: ToolModel| m.0)
}

/// `name: description` for one tool.
pub open spec fn description_line(m: ToolModel) -> Seq<char> {
    m.0 + ": "@ + m.4
}

/// The description lines of the tools joined with newlines.
pub open spec fn descriptions(ms: Seq<ToolModel>) -> Seq<char>
    decreases ms.len(),
{
    if ms.len() == 0 {
        Seq::empty()
    } else if ms.len() == 1 {
        description_line(ms[0])
    } else {
        descriptions(ms.drop_last()) + seq!['\n'] + description_line(ms.last())
    }
}

proof fn lemma_catalog_names_distinct()
    ensures
        forall|i: int, j: int|
            0 <= i < j < catalog().len() ==> (#[trigger] catalog()[i]).0 != (#[trigger] catalog()[j]).0,
{
    reveal_strlit("jless");
    reveal_strlit("fx");
    reveal_strlit("visidata");
    reveal_strlit("tabview");
    reveal_strlit("lnav");
    reveal_strlit("gonzo");
    reveal_strlit("csvtk");
    reveal_strlit("less");
    let c = catalog();
    assert forall|i: int, j: int| 0 <= i < j < c.len() implies (#[trigger] c[i]).0 != (
    #[trigger] c[j]).0 by {
        if c[i].0 == c[j].0 {
            assert(c[i].0.len() == c[j].0.len());
            assert(c[i].0[0] == c[j].0[0]);
            assert(c[i].0[1] == c[j].0[1]);
        }
    }
}

/// The known tools by name.
pub struct ToolRegistry {
    pub tools: Vec<ExternalTool>,
}

impl ToolRegistry {
    pub open spec fn models(&self) -> Seq<ToolModel> {
        tool_models(self.tools@)
    }

    /// No two tools share a name.
    pub open spec fn wf(&self) -> bool {
        forall|i: int, j: int|
            0 <= i < j < self.tools@.len() ==> (#[trigger] self.tools@[i]).name@ != (
            #[trigger] self.tools@[j]).name@
    }

    /// A registry of every known tool.
    pub fn new() -> (r: Self)
        ensures
            r.wf(),
            r.models() == catalog(),
    {
        let r = ToolRegistry { tools: ExternalTool::all_tools() };
        proof {
            lemma_catalog_names_distinct();
            assert forall|i: int, j: int| 0 <= i < j < r.tools@.len() implies (
            #[trigger] r.tools@[i]).name@ != (#[trigger] r.tools@[j]).name@ by {
                assert(r.models()[i].0 == r.tools@[i].name@);
                assert(r.models()[j].0 == r.tools@[j].name@);
            }
        }
        r
    }

    /// The tool with this name, if there is one.
    pub fn get(&self, name: &str) -> (r: Option<&ExternalTool>)
        requires
            self.wf(),
        ensures
            r is None <==> forall|i: int| 0 <= i < self.tools@.len() ==> self.tools@[i].name@ != name@,
            r matches Some(t) ==> exists|i: int|
                0 <= i < self.tools@.len() && self.tools@[i] == *t && t.name@ == name@,
    {
        let mut k: usize = 0;
        while k < self.tools.len()
            invariant
                k <= self.tools@.len(),
                forall|j: int| 0 <= j < k ==> self.tools@[j].name@ != name@,
            decreases self.tools@.len() - k,
        {
            if same_text(self.tools[k].name.as_str(), name) {
                return Some(&self.tools[k]);
            }
            k = k + 1;
        }
        None
    }

    /// The tools whose check command is among `installed`, in registry order.
    pub fn get_available(&self, installed: &Vec<String>) -> (r: Vec<&ExternalTool>)
        ensures
            ref_models(r@) == keep_installed(self.models(), installed@),
    {
        let mut out: Vec<&ExternalTool> = Vec::new();
        let mut k: usize = 0;
        proof {
            assert(self.models().take(0) =~= Seq::<ToolModel>::empty());
            assert(ref_models(out@) =~= Seq::<ToolModel>::empty());
        }
        while k < self.tools.len()
            invariant
                k <= self.tools@.len(),
                ref_models(out@) == keep_installed(self.models().take(k as int), installed@),
            decreases self.tools@.len() - k,
        {
            let t = &self.tools[k];
            let keep = installed_contains(installed, &t.check_cmd);
            let ghost before = out@;
            proof {
                let ms = self.models();
                assert(ms.take(k + 1) =~= ms.take(k as int).push(ms[k as int]));
                lemma_keep_push(ms.take(k as int), ms[k as int], installed@);
            }
            if keep {
                out.push(t);
            }
            proof {
                if keep {
                    assert(ref_models(out@) =~= ref_models(before).push(tool_model(*t)));
                } else {
                    assert(ref_models(before) + Seq::<ToolModel>::empty() =~= ref_models(before));
                }
            }
            k = k + 1;
        }
        proof {
            assert(self.models().take(k as int) =~= self.models());
        }
        out
    }

    /// The names of the available tools.
    pub fn get_available_names(&self, installed: &Vec<String>) -> (r: Vec<String>)
        ensures
            strings_view(r@) == names_of(keep_installed(self.models(), installed@)),
    {
        let avail = self.get_available(installed);
        let mut out: Vec<String> = Vec::new();
        let mut k: usize = 0;
        while k < avail.len()
            invariant
                k <= avail@.len(),
                ref_models(avail@) == keep_installed(self.models(), installed@),
                strings_view(out@) == names_of(ref_models(avail@)).take(k as int),
            decreases avail@.len() - k,
        {
            let ghost before = out@;
            let name = avail[k].name.clone();
            out.push(name);
            proof {
                assert(ref_models(avail@)[k as int] == tool_model(*avail@[k as int]));
                assert(names_of(ref_models(avail@))[k as int] == name@);
                assert(strings_view(out@) =~= strings_view(before).push(name@));
                assert(strings_view(out@) =~= names_of(ref_models(avail@)).take(k + 1));
            }
            k = k + 1;
        }
        proof {
            assert(names_of(ref_models(avail@)).take(k as int) =~= names_of(ref_models(avail@)));
        }
        out
    }

    /// `name: description` of each available tool, one per line.
    pub fn get_available_descriptions(&self, installed: &Vec<String>) -> (r: String)
        ensures
            r@ == descriptions(keep_installed(self.models(), installed@)),
    {
        let avail = self.get_available(installed);
        let ghost ms = ref_models(avail@);
        let mut out = String::new();
        let mut k: usize = 0;
        while k < avail.len()
            invariant
                k <= avail@.len(),
                ms == ref_models(avail@),
                out@ == descriptions(ms.take(k as int)),
            decreases avail@.len() - k,
        {
            let t = avail[k];
            if k > 0 {
                push_char(&mut out, '\n');
            }
            out.append(t.name.as_str());
            out.append(": ");
            out.append(t.description.as_str());
            proof {
                let m = ms[k as int];
                assert(ms.take(k + 1).drop_last() =~= ms.take(k as int));
                if k == 0 {
                    assert(out@ =~= description_line(m));
                } else {
                    assert(out@ =~= descriptions(ms.take(k as int)) + seq!['\n'] + description_line(m));
                }
            }
            k = k + 1;
        }
        proof {
            assert(ms.take(k as int) =~= ms);
        }
        out
    }
}

impl Default for ToolRegistry {
    fn default() -> (r: Self)
        ensures
            r.wf(),
            r.models() == catalog(),
    {
        Self::new()
    }
}

} // verus!
