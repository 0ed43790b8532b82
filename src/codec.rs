use vstd::prelude::*;
use crate::store::TaskStore;
use crate::task::{Priority, Task, TaskView, name_of, priority_named};
use crate::text::{
    chars_of, is_space, lemma_split_append, lemma_split_single, segment_is, split, split_bounds,
    trim, trim_bounds, trim_end, trim_start,
};

verus! {

/// How a completion flag is written.
pub open spec fn bool_text(b: bool) -> Seq<char> {
    if b {
        seq!['t', 'r', 'u', 'e']
    } else {
        seq!['f', 'a', 'l', 's', 'e']
    }
}

/// One task as a line of the file, without the line break:
/// `description,priority,completed`.
pub open spec fn record_text(t: TaskView) -> Seq<char> {
    t.description + seq![','] + name_of(t.priority) + seq![','] + bool_text(t.completed)
}

/// The file that holds the tasks of `s`: one line per task, in store order, each
/// ended by a line break.
pub open spec fn save_spec(s: Seq<TaskView>) -> Seq<char>
    decreases s.len(),
{
    if s.len() == 0 {
        Seq::empty()
    } else {
        save_spec(s.drop_last()) + record_text(s.last()) + seq!['\n']
    }
}

/// The task that a line holds, if it is well formed: trimmed, it splits on commas
/// into exactly three fields, the second of which (trimmed) names a priority. The
/// task is completed exactly when the third field, trimmed, is `true`.
pub open spec fn parse_record(line: Seq<char>) -> Option<TaskView> {
    let f = split(trim(line), ',');
    if f.len() == 3 {
        match priority_named(trim(f[1])) {
            Some(p) => Some(
                TaskView { description: f[0], priority: p, completed: trim(f[2]) == bool_text(true) },
            ),
            None => None,
        }
    } else {
        None
    }
}

/// The tasks of the well-formed lines among `lines`, in their order.
pub open spec fn parse_lines(lines: Seq<Seq<char>>) -> Seq<TaskView>
    decreases lines.len(),
{
    if lines.len() == 0 {
        Seq::empty()
    } else {
        let rest = parse_lines(lines.drop_last());
        match parse_record(lines.last()) {
            Some(t) => rest.push(t),
            None => rest,
        }
    }
}

/// The tasks that a file holds: those of its well-formed lines, in file order.
pub open spec fn load_spec(text: Seq<char>) -> Seq<TaskView> {
    parse_lines(split(text, '\n'))
}

/// Whether a task survives being written and read back: its description holds no
/// comma and no line break, and does not start with white space (lines are trimmed
/// when read).
pub open spec fn savable(t: TaskView) -> bool {
    &&& !t.description.contains(',')
    &&& !t.description.contains('\n')
    &&& t.description.len() > 0 ==> !is_space(t.description[0])
}

/// A sequence that starts and ends with other than white space is its own trim.
proof fn lemma_trim_keeps(s: Seq<char>)
    requires
        s.len() > 0,
        !is_space(s[0]),
        !is_space(s.last()),
    ensures
        trim(s) == s,
{
    assert(trim_start(s) == s);
    assert(trim_end(s) == s);
}

/// Priority names and flag words hold no separator, need no trimming and read
/// back as what they were written from.
proof fn lemma_word_parts(p: Priority, b: bool)
    ensures
        !name_of(p).contains(','),
        !name_of(p).contains('\n'),
        !bool_text(b).contains(','),
        !bool_text(b).contains('\n'),
        trim(name_of(p)) == name_of(p),
        trim(bool_text(b)) == bool_text(b),
        priority_named(name_of(p)) == Some(p),
        (trim(bool_text(b)) == bool_text(true)) == b,
{
    let n = name_of(p);
    let t = bool_text(b);
    assert(forall|i: int| 0 <= i < n.len() ==> n[i] != ',' && n[i] != '\n');
    assert(forall|i: int| 0 <= i < t.len() ==> t[i] != ',' && t[i] != '\n');
    lemma_trim_keeps(n);
    lemma_trim_keeps(t);
    assert(name_of(Priority::Low) != name_of(Priority::Medium));
    assert(name_of(Priority::Low) != name_of(Priority::High));
    assert(name_of(Priority::Medium) != name_of(Priority::High));
    if !b {
        assert(bool_text(false) != bool_text(true));
    }
}

/// `x` followed by a separator splits into the pieces of `x` and a last empty one.
proof fn lemma_split_ended(x: Seq<char>, sep: char)
    requires
        !x.contains(sep),
    ensures
        split(x + seq![sep], sep) == seq![x, Seq::<char>::empty()],
{
    let y = x + seq![sep];
    assert(y.drop_last() =~= x);
    lemma_split_single(x, sep);
}

/// The line written for a savable task holds no line break and reads back as it.
proof fn lemma_record_parses(t: TaskView)
    requires
        savable(t),
    ensures
        !record_text(t).contains('\n'),
        parse_record(record_text(t)) == Some(t),
{
    let d = t.description;
    let n = name_of(t.priority);
    let b = bool_text(t.completed);
    let r = record_text(t);
    lemma_word_parts(t.priority, t.completed);
    assert(!r.contains('\n')) by {
        if r.contains('\n') {
            let i = choose|i: int| 0 <= i < r.len() && r[i] == '\n';
            if i < d.len() {
                assert(d[i] == '\n');
            } else if d.len() + 1 <= i < d.len() + 1 + n.len() {
                assert(n[i - d.len() - 1] == '\n');
            } else if d.len() + 2 + n.len() <= i {
                assert(b[i - d.len() - 2 - n.len()] == '\n');
            }
        }
    }
    assert(r[0] == if d.len() > 0 { d[0] } else { ',' });
    assert(r.last() == b.last());
    lemma_trim_keeps(r);
    let x = d + seq![','];
    let y = n + seq![','] + b;
    assert(r =~= x + y);
    lemma_split_ended(d, ',');
    lemma_split_append(x, y, ',');
    lemma_split_ended(n, ',');
    lemma_split_append(n + seq![','], b, ',');
    lemma_split_single(b, ',');
    assert(split(x, ',').drop_last() =~= seq![d]);
    assert(split(n + seq![','], ',').drop_last() =~= seq![n]);
    assert(split(r, ',') =~= seq![d, n, b]);
}

/// The lines of a saved store: one per task, then an empty one after the last
/// line break.
proof fn lemma_save_lines(s: Seq<TaskView>)
    requires
        forall|i: int| 0 <= i < s.len() ==> savable(#[trigger] s[i]),
    ensures
        split(save_spec(s), '\n') == s.map_values(|t: TaskView| record_text(t)).push(
            Seq::<char>::empty(),
        ),
    decreases s.len(),
{
    if s.len() == 0 {
        assert(split(save_spec(s), '\n') =~= seq![Seq::<char>::empty()]);
    } else {
        let s0 = s.drop_last();
        let t = s.last();
        assert(savable(s[s.len() - 1]));
        lemma_record_parses(t);
        lemma_save_lines(s0);
        let line = record_text(t) + seq!['\n'];
        lemma_split_ended(record_text(t), '\n');
        let prev = save_spec(s0);
        assert(save_spec(s) =~= prev + line);
        if s0.len() == 0 {
            assert(prev + line =~= line);
        } else {
            assert(prev.last() == '\n');
            lemma_split_append(prev, line, '\n');
        }
        assert(split(save_spec(s), '\n') =~= s.map_values(|t: TaskView| record_text(t)).push(
            Seq::<char>::empty(),
        ));
    }
}

/// The lines written for savable tasks read back as those tasks.
proof fn lemma_parse_records(s: Seq<TaskView>)
    requires
        forall|i: int| 0 <= i < s.len() ==> savable(#[trigger] s[i]),
    ensures
        parse_lines(s.map_values(|t: TaskView| record_text(t))) == s,
    decreases s.len(),
{
    if s.len() > 0 {
        let s0 = s.drop_last();
        assert(savable(s[s.len() - 1]));
        lemma_record_parses(s.last());
        lemma_parse_records(s0);
        assert(s.map_values(|t: TaskView| record_text(t)).drop_last() =~= s0.map_values(
            |t: TaskView| record_text(t),
        ));
        assert(s0.push(s.last()) =~= s);
    } else {
        assert(s.map_values(|t: TaskView| record_text(t)) =~= Seq::<Seq<char>>::empty());
    }
}

/// Writing a store and reading the file back gives the same tasks, in the same
/// order, provided that each description survives the format (`savable`).
pub proof fn lemma_round_trip(s: Seq<TaskView>)
    requires
        forall|i: int| 0 <= i < s.len() ==> savable(#[trigger] s[i]),
    ensures
        load_spec(save_spec(s)) == s,
{
    lemma_save_lines(s);
    lemma_parse_records(s);
    let lines = s.map_values(|t: TaskView| record_text(t));
    assert(lines.push(Seq::<char>::empty()).drop_last() =~= lines);
    assert(split(Seq::<char>::empty(), ',') == seq![Seq::<char>::empty()]);
    assert(trim(Seq::<char>::empty()) == Seq::<char>::empty());
}

fn bool_name(b: bool) -> (r: &'static str)
    ensures
        r@ == bool_text(b),
{
    proof {
        reveal_strlit("true");
        reveal_strlit("false");
    }
    if b {
        assert("true"@ =~= bool_text(true));
        "true"
    } else {
        assert("false"@ =~= bool_text(false));
        "false"
    }
}

/// The text of the file that holds the tasks of `store`, in store order.
pub fn save(store: &TaskStore) -> (r: String)
    ensures
        r@ == save_spec(store@),
{
    let mut out = String::new();
    let n = store.len();
    let mut i: usize = 0;
    assert(store@.take(0) =~= Seq::<TaskView>::empty());
    while i < n
        invariant
            n == store@.len(),
            i <= n,
            out@ == save_spec(store@.take(i as int)),
        decreases n - i,
    {
        proof {
            reveal_strlit(",");
            reveal_strlit("\n");
        }
        assert(","@ =~= seq![',']);
        assert("\n"@ =~= seq!['\n']);
        let t = store.get(i);
        let ghost before = out@;
        out.append(t.description.as_str());
        out.append(",");
        out.append(t.priority.name());
        out.append(",");
        out.append(bool_name(t.completed));
        let ghost rec = out@;
        assert(rec =~= before + record_text(t@));
        out.append("\n");
        assert(out@ =~= before + record_text(t@) + seq!['\n']);
        assert(store@.take(i + 1).drop_last() =~= store@.take(i as int));
        assert(store@.take(i + 1).last() == t@);
        assert(out@ =~= before + (t.description@ + seq![','] + name_of(t.priority) + seq![',']
            + bool_text(t.completed)) + seq!['\n']);
        assert(out@ =~= save_spec(store@.take(i + 1)));
        i = i + 1;
    }
    assert(store@.take(n as int) =~= store@);
    out
}

/// The priority whose name stands in `c[from..to]`, if any.
fn priority_at(c: &Vec<char>, from: usize, to: usize) -> (r: Option<Priority>)
    requires
        from <= to <= c@.len(),
    ensures
        r == priority_named(c@.subrange(from as int, to as int)),
{
    if segment_is(c, from, to, Priority::Low.name()) {
        Some(Priority::Low)
    } else if segment_is(c, from, to, Priority::Medium.name()) {
        Some(Priority::Medium)
    } else if segment_is(c, from, to, Priority::High.name()) {
        Some(Priority::High)
    } else {
        None
    }
}

/// The task of the line `c[from..to]`, where `c` holds the characters of `text`.
fn record_at(text: &str, c: &Vec<char>, from: usize, to: usize) -> (r: Option<Task>)
    requires
        c@ == text@,
        from <= to <= c@.len(),
    ensures
        match r {
            Some(t) => parse_record(c@.subrange(from as int, to as int)) == Some(t@),
            None => parse_record(c@.subrange(from as int, to as int)) is None,
        },
{
    let (a, b) = trim_bounds(c, from, to);
    let f = split_bounds(c, a, b, ',');
    if f.len() != 3 {
        return None;
    }
    let (a1, b1) = trim_bounds(c, f[1].0, f[1].1);
    let priority = match priority_at(c, a1, b1) {
        Some(p) => p,
        None => {
            return None;
        },
    };
    let (a2, b2) = trim_bounds(c, f[2].0, f[2].1);
    let completed = segment_is(c, a2, b2, bool_name(true));
    let description = text.substring_char(f[0].0, f[0].1).to_owned();
    Some(Task { description, priority, completed })
}

/// The tasks of the well-formed lines of `text`, in file order; other lines are
/// skipped.
pub fn load(text: &str) -> (r: TaskStore)
    ensures
        r@ == load_spec(text@),
{
    let c = chars_of(text);
    let lines = split_bounds(&c, 0, c.len(), '\n');
    let ghost ls = split(c@.subrange(0, c@.len() as int), '\n');
    assert(c@.subrange(0, c@.len() as int) =~= text@);
    let mut store = TaskStore::new();
    let n = lines.len();
    let mut k: usize = 0;
    assert(ls.take(0) =~= Seq::<Seq<char>>::empty());
    while k < n
        invariant
            c@ == text@,
            n == lines@.len(),
            n == ls.len(),
            ls == split(text@, '\n'),
            k <= n,
            forall|j: int|
                0 <= j < n ==> 0 <= (#[trigger] lines@[j]).0 <= lines@[j].1 <= c@.len()
                    && c@.subrange(lines@[j].0 as int, lines@[j].1 as int) == ls[j],
            store@ == parse_lines(ls.take(k as int)),
        decreases n - k,
    {
        let (x, y) = lines[k];
        assert(ls.take(k + 1).drop_last() =~= ls.take(k as int));
        assert(ls.take(k + 1).last() == ls[k as int]);
        match record_at(text, &c, x, y) {
            Some(t) => {
                store.push_task(t);
            },
            None => {},
        }
        k = k + 1;
    }
    assert(ls.take(n as int) =~= ls);
    store
}

} // verus!
