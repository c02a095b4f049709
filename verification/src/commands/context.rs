//! `context`, `show`, `relate`: finding artifacts by ID, summarizing them,
//! and relating them to each other.
use vstd::prelude::*;

use crate::artifact::{int_field, list_field, str_field, strings_in, Artifact};
use crate::commands::lint::{first_with_id, id_of};
use crate::json::{compact_json, to_json_text};
use crate::schema::{schemas_view, Schema, SchemaModel};
use crate::sort::positions;
use crate::text::{has_prefix, int_text, join_spec, str_eq, views};
use crate::value::{Val, Value};

verus! {

/// The first artifact whose ID is `id`.
pub fn find_by_id(arts: &Vec<Artifact>, id: &str) -> (r: Option<usize>)
    requires
        forall|i: int| 0 <= i < arts@.len() ==> (#[trigger] arts@[i]).wf(),
    ensures
        r matches Some(j) ==> first_with_id(arts@, id@, arts@.len() as int) == Some(j as int) && j < arts@.len(),
        r is None ==> first_with_id(arts@, id@, arts@.len() as int) is None,
{
    let mut j: usize = 0;
    while j < arts.len()
        invariant
            forall|i: int| 0 <= i < arts@.len() ==> (#[trigger] arts@[i]).wf(),
            j <= arts@.len(),
            first_with_id(arts@, id@, j as int) is None,
        decreases arts@.len() - j,
    {
        let hit = match arts[j].id() {
            Some(x) => str_eq(x, id),
            None => false,
        };
        if hit {
            proof {
                lemma_first_stays(arts@, id@, j as int + 1, arts@.len() as int);
            }
            return Some(j);
        }
        j += 1;
    }
    None
}

proof fn lemma_first_stays(arts: Seq<Artifact>, id: Seq<char>, a: int, b: int)
    requires
        0 <= a <= b,
        first_with_id(arts, id, a) is Some,
    ensures
        first_with_id(arts, id, b) == first_with_id(arts, id, a),
    decreases b - a,
{
    if b > a {
        lemma_first_stays(arts, id, a, b - 1);
    }
}

/// The schemas whose prefix an ID starts with (where an artifact with that
/// ID is looked for), in order.
pub open spec fn schemas_for(ss: Seq<SchemaModel>, id: Seq<char>) -> Seq<usize> {
    positions(ss.len() as int, |i: int| has_prefix(id, ss[i].prefix))
}

/// The positions of the schemas whose prefix `id` starts with.
pub fn schemas_for_id(schemas: &Vec<Schema>, id: &str) -> (r: Vec<usize>)
    ensures
        r@ == schemas_for(schemas_view(schemas@), id@),
{
    let ghost keep = |i: int| has_prefix(id@, schemas_view(schemas@)[i].prefix);
    let mut out: Vec<usize> = Vec::new();
    let mut i: usize = 0;
    while i < schemas.len()
        invariant
            keep == (|i: int| has_prefix(id@, schemas_view(schemas@)[i].prefix)),
            i <= schemas@.len(),
            out@ == positions(i as int, keep),
        decreases schemas@.len() - i,
    {
        assert(schemas_view(schemas@)[i as int] == schemas@[i as int]@);
        if crate::text::starts_with(id, schemas[i].prefix.as_str()) {
            out.push(i);
        }
        i += 1;
    }
    assert(keep =~= (|i: int| has_prefix(id@, schemas_view(schemas@)[i].prefix)));
    out
}

/// The fields that the summary of a related artifact does not repeat.
pub open spec fn summary_skips(k: Seq<char>) -> bool {
    k == "id"@ || k == "title"@ || k == "status"@ || k == "priority"@ || k == "body"@
}

/// The summary line of a further field, if it has one: a string as it is, a
/// list by its strings (none when it holds none), anything else as JSON.
pub open spec fn field_line(k: Seq<char>, v: Val) -> Option<Seq<char>> {
    match v {
        Val::Str(s) => Some(k + ": "@ + s),
        Val::List(items) => if strings_in(items).len() > 0 {
            Some(k + ": ["@ + join_spec(strings_in(items), ", "@) + "]"@)
        } else {
            None
        },
        _ => Some(k + ": "@ + compact_json(v)),
    }
}

/// The summary lines of the further fields among `es[0..n]`, in order.
pub open spec fn field_lines(es: Seq<(Seq<char>, Val)>, n: int) -> Seq<Seq<char>>
    decreases n,
{
    if n <= 0 {
        Seq::empty()
    } else {
        let before = field_lines(es, n - 1);
        let (k, v) = es[n - 1];
        if summary_skips(k) {
            before
        } else {
            match field_line(k, v) {
                Some(l) => before.push(l),
                None => before,
            }
        }
    }
}

/// `line` when `o` holds a value.
pub open spec fn opt_line(label: Seq<char>, o: Option<Seq<char>>) -> Seq<Seq<char>> {
    match o {
        Some(t) => seq![label + t],
        None => Seq::empty(),
    }
}

/// The models of frontmatter entries, in stored order.
pub open spec fn entries_view(es: Seq<(String, Value)>) -> Seq<(Seq<char>, Val)> {
    Seq::new(es.len(), |i: int| (es[i].0@, es[i].1.deep()))
}

/// The summary of a related artifact: its ID, title, status and priority,
/// then its other fields in stored order, one per line.
pub open spec fn summary_lines(a: Artifact) -> Seq<Seq<char>> {
    let fm = a.frontmatter@;
    opt_line("id: "@, str_field(fm, "id"@)) + opt_line("title: "@, str_field(fm, "title"@)) + opt_line(
        "status: "@,
        str_field(fm, "status"@),
    ) + opt_line(
        "priority: "@,
        match int_field(fm, "priority"@) {
            Some(p) => Some(int_text(p)),
            None => None,
        },
    ) + field_lines(entries_view(a.frontmatter.entries@), a.frontmatter.entries@.len() as int)
}

/// Appends `label` and `o`'s text as a line, when there is one.
fn push_opt(lines: &mut Vec<String>, label: &str, o: Option<&str>)
    ensures
        crate::text::views(final(lines)@) == crate::text::views(old(lines)@) + opt_line(
            label@,
            crate::artifact::opt_str(o),
        ),
{
    let ghost before = crate::text::views(lines@);
    match o {
        Some(t) => {
            let mut l = crate::text::owned(label);
            l.append(t);
            lines.push(l);
        },
        None => {},
    }
    assert(crate::text::views(lines@) =~= before + opt_line(label@, crate::artifact::opt_str(o)));
}

/// The summary of a related artifact (see [`summary_lines`]), its lines
/// joined by newlines.
pub fn frontmatter_summary(a: &Artifact) -> (r: String)
    requires
        a.wf(),
    ensures
        r@ == join_spec(summary_lines(*a), "\n"@),
{
    let mut lines: Vec<String> = Vec::new();
    push_opt(&mut lines, "id: ", a.id());
    push_opt(&mut lines, "title: ", a.title());
    push_opt(&mut lines, "status: ", a.status());
    let pt = match a.priority() {
        Some(p) => Some(crate::text::i64_text(p)),
        None => None,
    };
    let pr = match &pt {
        Some(t) => Some(t.as_str()),
        None => None,
    };
    push_opt(&mut lines, "priority: ", pr);
    let ghost head = crate::text::views(lines@);
    let es = &a.frontmatter.entries;
    let ghost ev = entries_view(es@);
    let mut i: usize = 0;
    while i < es.len()
        invariant
            ev == entries_view(es@),
            i <= es@.len(),
            crate::text::views(lines@) == head + field_lines(ev, i as int),
        decreases es@.len() - i,
    {
        let k = es[i].0.as_str();
        let v = &es[i].1;
        let skip = str_eq(k, "id") || str_eq(k, "title") || str_eq(k, "status") || str_eq(k, "priority")
            || str_eq(k, "body");
        let ghost before = crate::text::views(lines@);
        assert(ev[i as int] == (k@, v.deep()));
        let line: Option<String> = match v {
            Value::Str(t) => {
                let mut l = crate::text::owned(k);
                l.append(": ");
                l.append(t.as_str());
                Some(l)
            },
            Value::List(items) => {
                let ghost im = Seq::new(items@.len(), |q: int| items@[q].deep());
                let mut strs: Vec<String> = Vec::new();
                let mut q: usize = 0;
                assert(im.take(0) =~= Seq::<Val>::empty());
                while q < items.len()
                    invariant
                        im == Seq::new(items@.len(), |q: int| items@[q].deep()),
                        q <= items@.len(),
                        views(strs@) == strings_in(im.take(q as int)),
                    decreases items@.len() - q,
                {
                    assert(im.take(q + 1).drop_last() =~= im.take(q as int));
                    match &items[q] {
                        Value::Str(t) => {
                            let ghost sb = views(strs@);
                            strs.push(t.clone());
                            assert(views(strs@) =~= sb.push(t@));
                        },
                        _ => {},
                    }
                    q += 1;
                }
                assert(im.take(items@.len() as int) =~= im);
                assert(v.deep()->List_0 =~= im);
                if strs.len() > 0 {
                    let mut l = crate::text::owned(k);
                    l.append(": [");
                    let j = crate::text::join(&strs, ", ");
                    l.append(j.as_str());
                    l.append("]");
                    Some(l)
                } else {
                    None
                }
            },
            _ => {
                let mut l = crate::text::owned(k);
                l.append(": ");
                let j = to_json_text(v);
                l.append(j.as_str());
                Some(l)
            },
        };
        assert(match line {
            Some(l) => field_line(k@, v.deep()) == Some(l@),
            None => field_line(k@, v.deep()) is None,
        });
        assert(skip == summary_skips(k@));
        assert(field_lines(ev, i + 1) == if summary_skips(k@) {
            field_lines(ev, i as int)
        } else {
            match field_line(k@, v.deep()) {
                Some(l) => field_lines(ev, i as int).push(l),
                None => field_lines(ev, i as int),
            }
        });
        if !skip {
            match line {
                Some(l) => {
                    let ghost lv = l@;
                    lines.push(l);
                    assert(crate::text::views(lines@) =~= before.push(lv));
                },
                None => {},
            }
        }
        assert(crate::text::views(lines@) =~= head + field_lines(ev, i + 1));
        i += 1;
    }
    assert(crate::text::views(lines@) =~= summary_lines(*a));
    crate::text::join(&lines, "\n")
}

/// String values of `s`.
pub open spec fn str_vals(s: Seq<Seq<char>>) -> Seq<Val> {
    Seq::new(s.len(), |i: int| Val::Str(s[i]))
}

/// `list` extended with each of `ids` in turn that it does not hold yet.
pub open spec fn extend_unique(list: Seq<Seq<char>>, ids: Seq<Seq<char>>) -> Seq<Seq<char>>
    decreases ids.len(),
{
    if ids.len() == 0 {
        list
    } else if list.contains(ids[0]) {
        extend_unique(list, ids.drop_first())
    } else {
        extend_unique(list.push(ids[0]), ids.drop_first())
    }
}

proof fn lemma_extend_grows(list: Seq<Seq<char>>, ids: Seq<Seq<char>>)
    ensures
        extend_unique(list, ids).len() >= list.len(),
    decreases ids.len(),
{
    if ids.len() > 0 {
        if list.contains(ids[0]) {
            lemma_extend_grows(list, ids.drop_first());
        } else {
            lemma_extend_grows(list.push(ids[0]), ids.drop_first());
        }
    }
}

/// Relates `a` to `ids`: its `related` list gains each of them it lacks, in
/// order, and `updated` becomes `today`. `None` when it already holds them all.
pub fn add_related(a: Artifact, ids: &Vec<String>, today: &str) -> (r: Option<Artifact>)
    requires
        a.wf(),
    ensures
        r is None <==> extend_unique(list_field(a.frontmatter@, "related"@), views(ids@)).len() == list_field(
            a.frontmatter@,
            "related"@,
        ).len(),
        r matches Some(b) ==> b.wf() && b.path == a.path && b.body == a.body && b.raw == a.raw
            && b.frontmatter@ == a.frontmatter@.insert(
            "related"@,
            Val::List(str_vals(extend_unique(list_field(a.frontmatter@, "related"@), views(ids@)))),
        ).insert("updated"@, Val::Str(today@)),
{
    let mut related = a.get_list("related");
    let ghost start = list_field(a.frontmatter@, "related"@);
    let ghost all = views(ids@);
    assert(views(related@) =~= start);
    assert(all.skip(0) =~= all);
    let mut i: usize = 0;
    while i < ids.len()
        invariant
            all == views(ids@),
            i <= ids@.len(),
            extend_unique(start, all) == extend_unique(views(related@), all.skip(i as int)),
            views(related@).len() >= start.len(),
            (views(related@).len() == start.len()) == (views(related@) == start),
        decreases ids@.len() - i,
    {
        assert(all.skip(i as int)[0] == ids@[i as int]@);
        assert(all.skip(i as int).drop_first() =~= all.skip(i + 1));
        assert(crate::schema::strs_view(related@) =~= views(related@));
        if !crate::validate::contains_string(&related, ids[i].as_str()) {
            let ghost before = views(related@);
            related.push(ids[i].clone());
            assert(views(related@) =~= before.push(ids@[i as int]@));
        }
        i += 1;
    }
    assert(all.skip(ids@.len() as int) =~= Seq::<Seq<char>>::empty());
    proof {
        lemma_extend_grows(views(related@), Seq::empty());
    }
    assert(views(related@) == extend_unique(start, all));
    if related.len() == a.get_list("related").len() {
        return None;
    }
    let mut items: Vec<Value> = Vec::new();
    let mut q: usize = 0;
    while q < related.len()
        invariant
            q <= related@.len(),
            items@.len() == q,
            forall|j: int| 0 <= j < q ==> (#[trigger] items@[j]).deep() == Val::Str(related@[j]@),
        decreases related@.len() - q,
    {
        items.push(Value::Str(related[q].clone()));
        q += 1;
    }
    let ghost iv = items@;
    let list = Value::List(items);
    assert(list.deep()->List_0 =~= str_vals(extend_unique(start, all)));
    let mut b = a;
    b.frontmatter.insert(crate::text::owned("related"), list);
    b.frontmatter.insert(crate::text::owned("updated"), Value::Str(crate::text::owned(today)));
    Some(b)
}

/// The line `relate` prints: `Related <id> <-> <other>`, or the others in
/// brackets when there are several.
pub open spec fn relate_message_text(id: Seq<char>, others: Seq<Seq<char>>) -> Seq<char> {
    if others.len() == 1 {
        "Related "@ + id + " <-> "@ + others[0]
    } else {
        "Related "@ + id + " <-> ["@ + join_spec(others, ", "@) + "]"@
    }
}

/// The line `relate` prints.
pub fn relate_message(id: &str, others: &Vec<String>) -> (r: String)
    ensures
        r@ == relate_message_text(id@, views(others@)),
{
    let mut r = crate::text::owned("Related ");
    r.append(id);
    if others.len() == 1 {
        r.append(" <-> ");
        r.append(others[0].as_str());
    } else {
        r.append(" <-> [");
        let j = crate::text::join(others, ", ");
        r.append(j.as_str());
        r.append("]");
    }
    r
}

/// The error of relating an artifact to itself.
pub open spec fn self_relation_text(id: Seq<char>) -> Seq<char> {
    "cannot relate an artifact to itself: "@ + id
}

/// Checks one ID to relate to `id`: it must be another artifact.
pub fn check_other(id: &str, other: &str) -> (r: Result<(), String>)
    ensures
        r is Ok <==> other@ != id@,
        r matches Err(m) ==> m@ == self_relation_text(id@),
{
    if str_eq(other, id) {
        let mut m = crate::text::owned("cannot relate an artifact to itself: ");
        m.append(id);
        Err(m)
    } else {
        Ok(())
    }
}

} // verus!
