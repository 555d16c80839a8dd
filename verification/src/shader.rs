//! The sources of shaders, which may name other sources.

use crate::text::{self, has_start, lines_spec, stands_at};
use vstd::prelude::*;

verus! {

/// What begins a line that stands for another source; the name of the source follows.
pub open spec fn source_mark() -> Seq<char> {
    "#inc"@ + "lude "@
}

/// The files of sources, by name.
pub struct ShaderFiles {
    pub files: Vec<(String, String)>,
}

impl View for ShaderFiles {
    type V = Seq<(Seq<char>, Seq<char>)>;

    open spec fn view(&self) -> Seq<(Seq<char>, Seq<char>)> {
        self.files@.map_values(|file: (String, String)| (file.0@, file.1@))
    }
}

/// What is written in the first file of that name, from `i` on.
pub open spec fn content_from(
    files: Seq<(Seq<char>, Seq<char>)>,
    name: Seq<char>,
    i: int,
) -> Option<Seq<char>>
    decreases files.len() - i,
{
    if i >= files.len() {
        None
    } else if files[i].0 == name {
        Some(files[i].1)
    } else {
        content_from(files, name, i + 1)
    }
}

/// What is written in the file of a shader.
pub open spec fn shader_content(files: Seq<(Seq<char>, Seq<char>)>, shader: Seq<char>) -> Option<
    Seq<char>,
> {
    content_from(files, shader + ".wgsl"@, 0)
}

/// The source of a shader, if its files are there and no more than `depth` of them stand in one
/// another.
pub open spec fn source_of(
    files: Seq<(Seq<char>, Seq<char>)>,
    shader: Seq<char>,
    depth: nat,
) -> Option<Seq<char>>
    decreases depth, 0int,
{
    match shader_content(files, shader) {
        Some(content) => if depth == 0 {
            None
        } else {
            sources_of(files, lines_spec(content), lines_spec(content).len(), (depth - 1) as nat)
        },
        None => None,
    }
}

/// The sources of the first `n` lines, with breaks between them.
pub open spec fn sources_of(
    files: Seq<(Seq<char>, Seq<char>)>,
    lines: Seq<Seq<char>>,
    n: nat,
    depth: nat,
) -> Option<Seq<char>>
    decreases depth, n + 1,
{
    if n == 0 {
        Some(Seq::empty())
    } else {
        match (
            sources_of(files, lines, (n - 1) as nat, depth),
            line_source(files, lines[n - 1], depth),
        ) {
            (Some(before), Some(line)) => Some(
                if n == 1 {
                    line
                } else {
                    before.push('\n') + line
                },
            ),
            _ => None,
        }
    }
}

/// The source that a line stands for: another source, or the line itself.
pub open spec fn line_source(
    files: Seq<(Seq<char>, Seq<char>)>,
    line: Seq<char>,
    depth: nat,
) -> Option<Seq<char>>
    decreases depth, 1int,
{
    if has_start(line, source_mark()) {
        source_of(files, line.subrange(source_mark().len() as int, line.len() as int), depth)
    } else {
        Some(line)
    }
}

impl ShaderFiles {
    /// What is written in the file of a shader.
    fn content(&self, shader: &str) -> (r: Option<&str>)
        ensures
            match r {
                Some(content) => shader_content(self@, shader@) == Some(content@),
                None => shader_content(self@, shader@) is None,
            },
    {
        let name = text::joined(shader, ".wgsl");
        let mut i: usize = 0;
        while i < self.files.len()
            invariant
                i <= self.files@.len(),
                name@ == shader@ + ".wgsl"@,
                shader_content(self@, shader@) == content_from(self@, name@, i as int),
            decreases self.files@.len() - i,
        {
            let file = &self.files[i];
            assert(self@[i as int] == (file.0@, file.1@));
            if text::equals(file.0.as_str(), name.as_str()) {
                return Some(file.1.as_str());
            }
            i += 1;
        }
        None
    }

    fn load(&self, shader: &str, depth: usize) -> (r: Option<String>)
        ensures
            match r {
                Some(source) => source_of(self@, shader@, depth as nat) == Some(source@),
                None => source_of(self@, shader@, depth as nat) is None,
            },
        decreases depth,
    {
        let content = match self.content(shader) {
            Some(content) => content,
            None => {
                return None;
            },
        };
        if depth == 0 {
            return None;
        }
        let mark = text::joined("#inc", "lude ");
        let lines = text::lines(content);
        let ghost all = lines_spec(content@);
        let mut source: String = "".to_owned();
        proof {
            reveal_strlit("");
            assert(source@ =~= Seq::empty());
        }
        let mut i: usize = 0;
        while i < lines.len()
            invariant
                i <= lines@.len(),
                depth > 0,
                mark@ == source_mark(),
                text::views(lines@) == all,
                sources_of(self@, all, i as nat, (depth - 1) as nat) == Some(source@),
                source_of(self@, shader@, depth as nat) == sources_of(
                    self@,
                    all,
                    all.len(),
                    (depth - 1) as nat,
                ),
            decreases lines@.len() - i,
        {
            assert(all[i as int] == lines@[i as int]@);
            let line = lines[i];
            let part = if text::starts_with_text(line, mark.as_str()) {
                let name = line.substring_char(mark.as_str().unicode_len(), line.unicode_len());
                self.load(name, depth - 1)
            } else {
                Some(line.to_owned())
            };
            assert(line_source(self@, all[i as int], (depth - 1) as nat) == match part {
                Some(part) => Some(part@),
                None => None,
            });
            match part {
                Some(part) => {
                    if i == 0 {
                        source = part;
                    } else {
                        let ghost before = source@;
                        source = text::joined(source.as_str(), "\n");
                        source = text::joined(source.as_str(), part.as_str());
                        proof {
                            reveal_strlit("\n");
                            assert(source@ =~= before.push('\n') + part@);
                        }
                    }
                },
                None => {
                    proof {
                        lemma_missing(self@, all, (i + 1) as nat, all.len(), (depth - 1) as nat);
                    }
                    return None;
                },
            }
            i += 1;
        }
        Some(source)
    }

    /// The source of a shader. There is none if a file is missing, or if files stand in one another
    /// without end.
    pub fn load_shader_source(&self, shader: &str) -> (r: Option<String>)
        ensures
            match r {
                Some(source) => source_of(self@, shader@, self@.len()) == Some(source@),
                None => source_of(self@, shader@, self@.len()) is None,
            },
    {
        self.load(shader, self.files.len())
    }
}

proof fn lemma_missing(
    files: Seq<(Seq<char>, Seq<char>)>,
    lines: Seq<Seq<char>>,
    n: nat,
    m: nat,
    depth: nat,
)
    requires
        n <= m,
        sources_of(files, lines, n, depth) is None,
    ensures
        sources_of(files, lines, m, depth) is None,
    decreases m,
{
    if n < m {
        lemma_missing(files, lines, n, (m - 1) as nat, depth);
    }
}

/// A source that is found is the same however deep files may stand in one another.
pub proof fn law_depth_does_not_matter(
    files: Seq<(Seq<char>, Seq<char>)>,
    shader: Seq<char>,
    depth: nat,
)
    requires
        source_of(files, shader, depth) is Some,
    ensures
        source_of(files, shader, depth + 1) == source_of(files, shader, depth),
    decreases depth, 0int,
{
    let content = shader_content(files, shader)->0;
    let lines = lines_spec(content);
    lemma_deeper(files, lines, lines.len(), (depth - 1) as nat);
}

proof fn lemma_deeper(
    files: Seq<(Seq<char>, Seq<char>)>,
    lines: Seq<Seq<char>>,
    n: nat,
    depth: nat,
)
    requires
        sources_of(files, lines, n, depth) is Some,
    ensures
        sources_of(files, lines, n, depth + 1) == sources_of(files, lines, n, depth),
    decreases depth, n + 1,
{
    if n > 0 {
        let line = lines[n - 1];
        assert(sources_of(files, lines, (n - 1) as nat, depth) is Some);
        assert(line_source(files, line, depth) is Some);
        lemma_deeper(files, lines, (n - 1) as nat, depth);
        if has_start(line, source_mark()) {
            law_depth_does_not_matter(
                files,
                line.subrange(source_mark().len() as int, line.len() as int),
                depth,
            );
        }
        assert(line_source(files, line, depth + 1) == line_source(files, line, depth));
    }
}

/// The name of the source that a line stands for.
pub open spec fn named(line: Seq<char>) -> Seq<char> {
    line.subrange(source_mark().len() as int, line.len() as int)
}

/// Whether the file of a shader is there, and every source that it names is one of `known` and
/// ranks below it.
pub open spec fn stands_alone(
    files: Seq<(Seq<char>, Seq<char>)>,
    known: Set<Seq<char>>,
    rank: spec_fn(Seq<char>) -> nat,
    shader: Seq<char>,
) -> bool {
    &&& shader_content(files, shader) is Some
    &&& forall|i: int|
        0 <= i < lines_spec(shader_content(files, shader)->0).len() ==> {
            let line = #[trigger] lines_spec(shader_content(files, shader)->0)[i];
            has_start(line, source_mark()) ==> known.contains(named(line)) && rank(named(line))
                < rank(shader)
        }
}

/// The names of the files.
pub open spec fn file_names(files: Seq<(Seq<char>, Seq<char>)>) -> Set<Seq<char>> {
    files.map_values(|file: (Seq<char>, Seq<char>)| file.0).to_set()
}

proof fn lemma_content_is_named(files: Seq<(Seq<char>, Seq<char>)>, name: Seq<char>, i: int)
    requires
        0 <= i,
        content_from(files, name, i) is Some,
    ensures
        file_names(files).contains(name),
    decreases files.len() - i,
{
    if files[i].0 == name {
        let names = files.map_values(|file: (Seq<char>, Seq<char>)| file.0);
        assert(names[i] == name);
    } else {
        lemma_content_is_named(files, name, i + 1);
    }
}

/// Where every shader of `known` has its file and names only shaders of `known` that rank below
/// it, so that none stands in itself, each of them has a source.
pub proof fn law_sources_without_cycle(
    files: Seq<(Seq<char>, Seq<char>)>,
    known: Set<Seq<char>>,
    rank: spec_fn(Seq<char>) -> nat,
    shader: Seq<char>,
)
    requires
        known.contains(shader),
        forall|name: Seq<char>| #[trigger]
            known.contains(name) ==> stands_alone(files, known, rank, name),
    ensures
        source_of(files, shader, files.len()) is Some,
{
    let names = files.map_values(|file: (Seq<char>, Seq<char>)| file.0);
    vstd::seq_lib::seq_to_set_is_finite(names);
    names.lemma_cardinality_of_set();
    let depth = file_names(files).len();
    lemma_without_cycle(files, known, rank, shader, Set::empty(), depth);
    lemma_much_deeper(files, shader, depth, files.len());
}

proof fn lemma_much_deeper(
    files: Seq<(Seq<char>, Seq<char>)>,
    shader: Seq<char>,
    depth: nat,
    more: nat,
)
    requires
        depth <= more,
        source_of(files, shader, depth) is Some,
    ensures
        source_of(files, shader, more) is Some,
    decreases more,
{
    if depth < more {
        lemma_much_deeper(files, shader, depth, (more - 1) as nat);
        law_depth_does_not_matter(files, shader, (more - 1) as nat);
    }
}

/// The source of a shader that stands in the files `above`, all of higher rank, is found with as
/// many steps as there are other files.
proof fn lemma_without_cycle(
    files: Seq<(Seq<char>, Seq<char>)>,
    known: Set<Seq<char>>,
    rank: spec_fn(Seq<char>) -> nat,
    shader: Seq<char>,
    above: Set<Seq<char>>,
    depth: nat,
)
    requires
        known.contains(shader),
        forall|name: Seq<char>| #[trigger]
            known.contains(name) ==> stands_alone(files, known, rank, name),
        file_names(files).finite(),
        above.subset_of(file_names(files)),
        forall|name: Seq<char>| #[trigger] above.contains(name + ".wgsl"@) ==> rank(name)
            > rank(shader),
        depth + above.len() == file_names(files).len(),
    ensures
        source_of(files, shader, depth) is Some,
    decreases depth,
{
    let name = shader + ".wgsl"@;
    let all = file_names(files);
    let content = shader_content(files, shader)->0;
    let lines = lines_spec(content);
    assert(stands_alone(files, known, rank, shader));
    lemma_content_is_named(files, name, 0);
    assert(!above.contains(name));
    let grown = above.insert(name);
    vstd::set_lib::lemma_set_subset_finite(all, above);
    vstd::set_lib::lemma_len_subset(grown, all);
    assert(depth > 0);
    assert forall|i: int| 0 <= i < lines.len() implies line_source(
        files,
        #[trigger] lines[i],
        (depth - 1) as nat,
    ) is Some by {
        let line = lines[i];
        if has_start(line, source_mark()) {
            let other = named(line);
            assert forall|n: Seq<char>| #[trigger] grown.contains(n + ".wgsl"@) implies rank(n)
                > rank(other) by {
                if n + ".wgsl"@ == name {
                    let full = n + ".wgsl"@;
                    assert(full.len() == name.len());
                    assert(n =~= full.subrange(0, n.len() as int));
                    assert(shader =~= name.subrange(0, shader.len() as int));
                } else {
                    assert(above.contains(n + ".wgsl"@));
                }
            }
            lemma_without_cycle(files, known, rank, other, grown, (depth - 1) as nat);
        }
    }
    lemma_all_lines(files, lines, lines.len(), (depth - 1) as nat);
}

proof fn lemma_all_lines(
    files: Seq<(Seq<char>, Seq<char>)>,
    lines: Seq<Seq<char>>,
    n: nat,
    depth: nat,
)
    requires
        n <= lines.len(),
        forall|i: int|
            0 <= i < lines.len() ==> line_source(files, #[trigger] lines[i], depth) is Some,
    ensures
        sources_of(files, lines, n, depth) is Some,
    decreases n,
{
    if n > 0 {
        lemma_all_lines(files, lines, (n - 1) as nat, depth);
        assert(line_source(files, lines[n - 1], depth) is Some);
    }
}

/// Whether no line of a text begins with the mark.
spec fn is_free(s: Seq<char>) -> bool {
    forall|at: int|
        (at == 0 || 0 < at <= s.len() && s[at - 1] == '\n') ==> !#[trigger] stands_at(
            s,
            source_mark(),
            at,
        )
}

proof fn lemma_mark()
    ensures
        source_mark().len() == 9,
        forall|i: int| 0 <= i < source_mark().len() ==> #[trigger] source_mark()[i] != '\n',
{
    reveal_strlit("#inc");
    reveal_strlit("lude ");
}

proof fn lemma_free_joined(a: Seq<char>, b: Seq<char>)
    requires
        is_free(a),
        is_free(b),
    ensures
        is_free(a.push('\n') + b),
{
    lemma_mark();
    let mark = source_mark();
    let s = a.push('\n') + b;
    let n = a.len() as int;
    assert forall|at: int| (at == 0 || 0 < at <= s.len() && s[at - 1] == '\n') implies !#[trigger]
        stands_at(s, mark, at) by {
        if stands_at(s, mark, at) {
            assert(s.subrange(at, at + mark.len()) == mark);
            if at <= n {
                if at + mark.len() > n {
                    assert(s.subrange(at, at + mark.len())[n - at] == s[n]);
                    assert(mark[n - at] == '\n');
                } else {
                    assert(a.subrange(at, at + mark.len()) =~= mark);
                    assert(stands_at(a, mark, at));
                    if at > 0 {
                        assert(a[at - 1] == s[at - 1]);
                    }
                }
            } else {
                let to = at - n - 1;
                assert(b.subrange(to, to + mark.len()) =~= mark);
                assert(stands_at(b, mark, to));
                if to > 0 {
                    assert(b[to - 1] == s[at - 1]);
                }
            }
        }
    }
}

proof fn lemma_free_sources(
    files: Seq<(Seq<char>, Seq<char>)>,
    lines: Seq<Seq<char>>,
    n: nat,
    depth: nat,
)
    requires
        n <= lines.len(),
        forall|i: int| 0 <= i < lines.len() ==> !(#[trigger] lines[i]).contains('\n'),
    ensures
        sources_of(files, lines, n, depth) matches Some(source) ==> is_free(source),
    decreases depth, n + 1,
{
    lemma_mark();
    if n > 0 && sources_of(files, lines, n, depth) is Some {
        let line = lines[n - 1];
        let part = line_source(files, line, depth)->0;
        lemma_free_sources(files, lines, (n - 1) as nat, depth);
        if has_start(line, source_mark()) {
            lemma_free_source(files, named(line), depth);
        } else {
            assert forall|at: int|
                (at == 0 || 0 < at <= line.len() && line[at - 1] == '\n') implies !#[trigger]
                stands_at(line, source_mark(), at) by {
                if at > 0 {
                    assert(line.contains(line[at - 1]));
                }
            }
            assert(is_free(line));
        }
        if n > 1 {
            lemma_free_joined(sources_of(files, lines, (n - 1) as nat, depth)->0, part);
        }
    }
}

proof fn lemma_free_source(files: Seq<(Seq<char>, Seq<char>)>, shader: Seq<char>, depth: nat)
    ensures
        source_of(files, shader, depth) matches Some(source) ==> is_free(source),
    decreases depth, 0int,
{
    if source_of(files, shader, depth) is Some {
        let content = shader_content(files, shader)->0;
        let lines = lines_spec(content);
        assert forall|i: int| 0 <= i < lines.len() implies !(#[trigger] lines[i]).contains(
            '\n',
        ) by {
            text::lemma_line(content, 0, i);
        }
        lemma_free_sources(files, lines, lines.len(), (depth - 1) as nat);
    }
}

/// No line of a source still stands for another source.
pub proof fn law_no_marks_left(
    files: Seq<(Seq<char>, Seq<char>)>,
    shader: Seq<char>,
    depth: nat,
    i: int,
)
    requires
        source_of(files, shader, depth) is Some,
        0 <= i < lines_spec(source_of(files, shader, depth)->0).len(),
    ensures
        !has_start(lines_spec(source_of(files, shader, depth)->0)[i], source_mark()),
{
    let source = source_of(files, shader, depth)->0;
    let line = lines_spec(source)[i];
    let mark = source_mark();
    lemma_free_source(files, shader, depth);
    text::lemma_line(source, 0, i);
    let at = choose|at: int|
        (at == 0 || 0 < at <= source.len() && source[at - 1] == '\n') && #[trigger] stands_at(
            source,
            line,
            at,
        );
    if has_start(line, mark) {
        assert(source.subrange(at, at + mark.len()) =~= line.subrange(0, mark.len() as int));
        assert(stands_at(source, mark, at));
    }
}

/// A shader is read from the first file that has its name with `.wgsl` behind it.
pub proof fn law_first_file(files: Seq<(Seq<char>, Seq<char>)>, shader: Seq<char>, i: int)
    requires
        0 <= i < files.len(),
        files[i].0 == shader + ".wgsl"@,
        forall|j: int| 0 <= j < i ==> (#[trigger] files[j]).0 != shader + ".wgsl"@,
    ensures
        shader_content(files, shader) == Some(files[i].1),
{
    lemma_found(files, shader + ".wgsl"@, i, 0);
}

proof fn lemma_found(files: Seq<(Seq<char>, Seq<char>)>, name: Seq<char>, i: int, from: int)
    requires
        0 <= from <= i < files.len(),
        files[i].0 == name,
        forall|j: int| 0 <= j < i ==> (#[trigger] files[j]).0 != name,
    ensures
        content_from(files, name, from) == Some(files[i].1),
    decreases i - from,
{
    if from < i {
        assert(files[from].0 != name);
        lemma_found(files, name, i, from + 1);
    }
}

/// A line that begins with the mark stands for the source that it names, every other line for itself,
/// and what the lines stand for is put together line by line.
pub proof fn law_lines_of_sources(
    files: Seq<(Seq<char>, Seq<char>)>,
    lines: Seq<Seq<char>>,
    other: Seq<char>,
    line: Seq<char>,
    n: nat,
    depth: nat,
)
    requires
        n < lines.len(),
    ensures
        line_source(files, "#inc"@ + "lude "@ + other, depth) == source_of(files, other, depth),
        line.len() < 9 || line[0] != '#' ==> line_source(files, line, depth) == Some(line),
        n == 0 ==> sources_of(files, lines, n + 1, depth) == line_source(files, lines[0], depth),
        n > 0 ==> (sources_of(files, lines, n, depth) matches Some(before) ==> line_source(
            files,
            lines[n as int],
            depth,
        ) matches Some(last) ==> sources_of(files, lines, n + 1, depth) == Some(
            before + seq!['\n'] + last,
        )),
        sources_of(files, lines, n + 1, depth) is Some <==> sources_of(files, lines, n, depth) is Some
            && line_source(files, lines[n as int], depth) is Some,
{
    lemma_mark();
    reveal_strlit("#inc");
    reveal_strlit("lude ");
    let mark = source_mark();
    let named_line = mark + other;
    assert(named_line.subrange(0, mark.len() as int) =~= mark);
    assert(named_line.subrange(mark.len() as int, named_line.len() as int) =~= other);
    assert(has_start(named_line, mark));
    assert(mark[0] == '#');
    if line.len() < 9 || line[0] != '#' {
        if has_start(line, mark) {
            assert(line.subrange(0, mark.len() as int)[0] == line[0]);
        }
    }
    if n > 0 {
        if let Some(before) = sources_of(files, lines, n, depth) {
            assert(before.push('\n') =~= before + seq!['\n']);
        }
    } else {
        assert(sources_of(files, lines, 0, depth) == Some(Seq::<char>::empty()));
    }
}

} // verus!
