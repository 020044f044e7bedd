//! Builders for the bootstrap scripts the Node-compatibility runtime
//! executes, and small decisions around them. Handing the built source
//! to an engine is the embedder's business; the texts themselves are
//! pinned here byte for byte, with every spliced value escaped so that
//! no input can alter a script's structure.

use vstd::prelude::*;

verus! {

/// Backslash-escaping for single-quoted script strings: each backslash
/// and each single quote gains a leading backslash; everything else
/// passes through.
pub open spec fn spec_escaped_single_quoted(s: Seq<char>) -> Seq<char>
    decreases s.len(),
{
    if s.len() == 0 {
        Seq::empty()
    } else {
        spec_escaped_single_quoted(s.drop_last()) + (if s.last() == '\\' || s.last() == '\'' {
            seq!['\\', s.last()]
        } else {
            seq![s.last()]
        })
    }
}

/// Backslash-escaping for double-quoted JSON strings: each backslash
/// and each double quote gains a leading backslash; everything else
/// passes through.
pub open spec fn spec_escaped_json(s: Seq<char>) -> Seq<char>
    decreases s.len(),
{
    if s.len() == 0 {
        Seq::empty()
    } else {
        spec_escaped_json(s.drop_last()) + (if s.last() == '\\' || s.last() == '"' {
            seq!['\\', s.last()]
        } else {
            seq![s.last()]
        })
    }
}

/// Appends the single-quote-escaped form of `text` to `out`.
fn push_escaped_single_quoted(text: &str, out: &mut String)
    ensures
        final(out)@ == old(out)@ + spec_escaped_single_quoted(text@),
{
    let n = text.unicode_len();
    let mut i: usize = 0;
    proof {
        assert(text@.take(0) =~= Seq::<char>::empty());
        assert(spec_escaped_single_quoted(text@.take(0)) =~= Seq::<char>::empty());
    }
    while i < n
        invariant
            i <= n,
            n == text@.len(),
            out@ == old(out)@ + spec_escaped_single_quoted(text@.take(i as int)),
        decreases n - i,
    {
        let c = text.get_char(i);
        if c == '\\' || c == '\'' {
            out.append("\\");
        }
        out.append(text.substring_char(i, i + 1));
        proof {
            reveal_strlit("\\");
            assert(text@.subrange(i as int, i as int + 1) =~= seq![text@[i as int]]);
            assert(text@.take(i as int + 1).drop_last() =~= text@.take(i as int));
            assert(text@.take(i as int + 1).last() == text@[i as int]);
            assert(out@ =~= old(out)@ + spec_escaped_single_quoted(text@.take(i as int + 1)));
        }
        i = i + 1;
    }
    proof {
        assert(text@.take(n as int) =~= text@);
    }
}

/// Appends the JSON-string-escaped form of `text` to `out`.
fn push_escaped_json(text: &str, out: &mut String)
    ensures
        final(out)@ == old(out)@ + spec_escaped_json(text@),
{
    let n = text.unicode_len();
    let mut i: usize = 0;
    proof {
        assert(text@.take(0) =~= Seq::<char>::empty());
        assert(spec_escaped_json(text@.take(0)) =~= Seq::<char>::empty());
    }
    while i < n
        invariant
            i <= n,
            n == text@.len(),
            out@ == old(out)@ + spec_escaped_json(text@.take(i as int)),
        decreases n - i,
    {
        let c = text.get_char(i);
        if c == '\\' || c == '"' {
            out.append("\\");
        }
        out.append(text.substring_char(i, i + 1));
        proof {
            reveal_strlit("\\");
            assert(text@.subrange(i as int, i as int + 1) =~= seq![text@[i as int]]);
            assert(text@.take(i as int + 1).drop_last() =~= text@.take(i as int));
            assert(text@.take(i as int + 1).last() == text@[i as int]);
            assert(out@ =~= old(out)@ + spec_escaped_json(text@.take(i as int + 1)));
        }
        i = i + 1;
    }
    proof {
        assert(text@.take(n as int) =~= text@);
    }
}

/// Escapes text for embedding in a single-quoted script string.
pub fn escape_for_single_quote_string(text: &String) -> (r: String)
    ensures
        r@ == spec_escaped_single_quoted(text@),
{
    let mut out = String::new();
    push_escaped_single_quoted(text.as_str(), &mut out);
    proof {
        assert(out@ =~= spec_escaped_single_quoted(text@));
    }
    out
}

/// The text of a boolean in script source.
pub fn bool_text(b: bool) -> (r: &'static str)
    ensures
        b ==> r@ == "true"@,
        !b ==> r@ == "false"@,
{
    if b {
        "true"
    } else {
        "false"
    }
}

/// The script that loads a CommonJS module: a call of the runtime's
/// module loader with the module name spliced in escaped, so that no
/// module value can alter the script's structure, and the main and
/// inspector flags as booleans.
pub fn load_cjs_module_source(module: &String, main: bool, inspect_brk: bool) -> (r: String)
    ensures
        r@ == "(function loadCjsModule(moduleName, isMain, inspectBrk) { Deno[Deno.internal].node.loadCjsModule(moduleName, isMain, inspectBrk); })('"@
            + spec_escaped_single_quoted(module@) + "', "@ + (if main {
            "true"@
        } else {
            "false"@
        }) + ", "@ + (if inspect_brk {
            "true"@
        } else {
            "false"@
        }) + ");"@,
{
    let mut s = String::from_str(
        "(function loadCjsModule(moduleName, isMain, inspectBrk) { Deno[Deno.internal].node.loadCjsModule(moduleName, isMain, inspectBrk); })('",
    );
    push_escaped_single_quoted(module.as_str(), &mut s);
    s.append("', ");
    s.append(bool_text(main));
    s.append(", ");
    s.append(bool_text(inspect_brk));
    s.append(");");
    proof {
        assert(s@ =~= "(function loadCjsModule(moduleName, isMain, inspectBrk) { Deno[Deno.internal].node.loadCjsModule(moduleName, isMain, inspectBrk); })('"@
            + spec_escaped_single_quoted(module@) + "', "@ + (if main {
            "true"@
        } else {
            "false"@
        }) + ", "@ + (if inspect_brk {
            "true"@
        } else {
            "false"@
        }) + ");"@);
    }
    s
}

/// The argv0 literal spliced into the runtime-initialization script: a
/// JSON-escaped, double-quoted string for a named binary command, the
/// text `undefined` for none.
pub open spec fn spec_argv0_literal(argv0: Option<&String>) -> Seq<char> {
    match argv0 {
        Some(name) => seq!['"'] + spec_escaped_json(name@) + seq!['"'],
        None => "undefined"@,
    }
}

/// The script that initializes the Node-compatibility globals: it
/// hands over the global name, the module-directory mode and the argv0
/// literal, and then makes the global name unconfigurable.
pub fn initialize_runtime_source(
    global_this_name: &String,
    uses_local_node_modules_dir: bool,
    maybe_binary_command_name: Option<&String>,
) -> (r: String)
    ensures
        r@ == "(function loadBuiltinNodeModules(nodeGlobalThisName, usesLocalNodeModulesDir, argv0) { Deno[Deno.internal].node.initialize(nodeGlobalThisName, usesLocalNodeModulesDir, argv0); Object.defineProperty(globalThis, nodeGlobalThisName, { configurable: false }); })('"@
            + spec_escaped_single_quoted(global_this_name@) + "', "@ + (if
        uses_local_node_modules_dir {
            "true"@
        } else {
            "false"@
        }) + ", "@ + spec_argv0_literal(maybe_binary_command_name) + ");"@,
{
    let mut s = String::from_str(
        "(function loadBuiltinNodeModules(nodeGlobalThisName, usesLocalNodeModulesDir, argv0) { Deno[Deno.internal].node.initialize(nodeGlobalThisName, usesLocalNodeModulesDir, argv0); Object.defineProperty(globalThis, nodeGlobalThisName, { configurable: false }); })('",
    );
    push_escaped_single_quoted(global_this_name.as_str(), &mut s);
    s.append("', ");
    s.append(bool_text(uses_local_node_modules_dir));
    s.append(", ");
    match maybe_binary_command_name {
        Some(name) => {
            s.append("\"");
            push_escaped_json(name.as_str(), &mut s);
            s.append("\"");
        },
        None => {
            s.append("undefined");
        },
    }
    s.append(");");
    proof {
        reveal_strlit("\"");
        assert("\""@ =~= seq!['"']);
        assert(s@ =~= "(function loadBuiltinNodeModules(nodeGlobalThisName, usesLocalNodeModulesDir, argv0) { Deno[Deno.internal].node.initialize(nodeGlobalThisName, usesLocalNodeModulesDir, argv0); Object.defineProperty(globalThis, nodeGlobalThisName, { configurable: false }); })('"@
            + spec_escaped_single_quoted(global_this_name@) + "', "@ + (if
        uses_local_node_modules_dir {
            "true"@
        } else {
            "false"@
        }) + ", "@ + spec_argv0_literal(maybe_binary_command_name) + ");"@);
    }
    s
}

/// The first `-` at or after position `i`.
pub open spec fn spec_dash_from(s: Seq<char>, i: int) -> Option<int>
    decreases s.len() - i,
{
    if i < 0 || i >= s.len() {
        None
    } else if s[i] == '-' {
        Some(i)
    } else {
        spec_dash_from(s, i + 1)
    }
}

/// The operating-system component of a build target triple: the third
/// dash-separated field on its own (`linux` in
/// `x86_64-unknown-linux-gnu`), or nothing for a triple with fewer
/// than three fields.
pub open spec fn spec_os_of_triple(s: Seq<char>) -> Option<Seq<char>> {
    match spec_dash_from(s, 0) {
        None => None,
        Some(d1) => match spec_dash_from(s, d1 + 1) {
            None => None,
            Some(d2) => {
                let end = match spec_dash_from(s, d2 + 1) {
                    Some(d3) => d3,
                    None => s.len() as int,
                };
                Some(s.subrange(d2 + 1, end))
            },
        },
    }
}

fn find_dash(s: &str, from: usize) -> (r: Option<usize>)
    requires
        from <= s@.len(),
    ensures
        match r {
            Some(i) => spec_dash_from(s@, from as int) == Some(i as int) && from <= i < s@.len(),
            None => spec_dash_from(s@, from as int) is None,
        },
{
    let n = s.unicode_len();
    let mut i: usize = from;
    while i < n
        invariant
            from <= i <= n,
            n == s@.len(),
            spec_dash_from(s@, from as int) == spec_dash_from(s@, i as int),
        decreases n - i,
    {
        if s.get_char(i) == '-' {
            return Some(i);
        }
        i = i + 1;
    }
    None
}

/// Extracts the platform field of a build target triple, as the Node
/// polyfill reports its operating system.
pub fn os_from_target_triple(target: &String) -> (r: Option<String>)
    ensures
        match r {
            Some(o) => spec_os_of_triple(target@) == Some(o@),
            None => spec_os_of_triple(target@) is None,
        },
{
    let s = target.as_str();
    let n = s.unicode_len();
    let d1 = match find_dash(s, 0) {
        None => {
            return None;
        },
        Some(i) => i,
    };
    let d2 = match find_dash(s, d1 + 1) {
        None => {
            return None;
        },
        Some(i) => i,
    };
    let end = match find_dash(s, d2 + 1) {
        Some(d3) => d3,
        None => n,
    };
    let field = String::from_str(s.substring_char(d2 + 1, end));
    proof {
        assert(field@ =~= target@.subrange(d2 as int + 1, end as int));
    }
    Some(field)
}

/// The environment variables the Node compatibility layer honours.
pub fn node_env_var_allowlist() -> (r: Vec<String>)
    ensures
        r@.len() == 2,
        r@[0]@ == "NODE_DEBUG"@,
        r@[1]@ == "NODE_OPTIONS"@,
{
    let mut v: Vec<String> = Vec::new();
    v.push(String::from_str("NODE_DEBUG"));
    v.push(String::from_str("NODE_OPTIONS"));
    v
}

} // verus!
