//! What holds of flavors as a whole.

use crate::crds::{
    DPUFlavorView, DpuFlavorConfigFilesOperation, DpuFlavorDpuMode, DpuFlavorNvconfigDevice,
    DpuFlavorOvsView, DpuFlavorSpecView,
};
use crate::digest;
use crate::document;
use crate::flavor;
use crate::json;
use crate::ordering;
use crate::proxy;
use crate::text;
use crate::types::{DpfProxyDetails, DpfProxyDetailsView};
use vstd::prelude::*;
use vstd::utf8;

verus! {

/// The two lists name the same destinations, once trimmed and freed of blanks.
pub open spec fn same_entries(a: Seq<Seq<char>>, b: Seq<Seq<char>>) -> bool {
    forall|e: Seq<char>|
        #[trigger] proxy::effective(a).contains(e) <==> proxy::effective(b).contains(e)
}

/// The two proxies are the same settings: none, or one URL and the same destinations.
pub open spec fn same_settings(
    p: Option<DpfProxyDetailsView>,
    q: Option<DpfProxyDetailsView>,
) -> bool {
    match (p, q) {
        (None, None) => true,
        (Some(p), Some(q)) => p.https_proxy == q.https_proxy && same_entries(
            p.no_proxy,
            q.no_proxy,
        ),
        _ => false,
    }
}

/// The two proxies are written alike: none, or one URL and the same `NO_PROXY` value, if any.
pub open spec fn written_alike(
    p: Option<DpfProxyDetailsView>,
    q: Option<DpfProxyDetailsView>,
) -> bool {
    match (p, q) {
        (None, None) => true,
        (Some(p), Some(q)) => {
            &&& p.https_proxy == q.https_proxy
            &&& proxy::effective(p.no_proxy).len() == 0 <==> proxy::effective(q.no_proxy).len() == 0
            &&& proxy::effective(p.no_proxy).len() > 0 ==> proxy::no_proxy_value(p.no_proxy)
                == proxy::no_proxy_value(q.no_proxy)
        },
        _ => false,
    }
}

/// Every character of the string is white space.
pub open spec fn is_blank(s: Seq<char>) -> bool {
    forall|i: int| 0 <= i < s.len() ==> text::is_white_space(#[trigger] s[i])
}

/// The string holds no comma.
pub open spec fn is_comma_free(s: Seq<char>) -> bool {
    forall|i: int| 0 <= i < s.len() ==> #[trigger] s[i] != ','
}

/// No string of the list holds a comma.
pub open spec fn all_comma_free(list: Seq<Seq<char>>) -> bool {
    forall|i: int| 0 <= i < list.len() ==> is_comma_free(#[trigger] list[i])
}

/// No destination holds a comma.
pub open spec fn has_plain_entries(p: Option<DpfProxyDetailsView>) -> bool {
    match p {
        Some(p) => all_comma_free(proxy::effective(p.no_proxy)),
        None => true,
    }
}

/// Different byte strings whose digests start with the same 8 bytes.
pub open spec fn collide(x: Seq<u8>, y: Seq<u8>) -> bool {
    x != y && digest::sha256_digest(x).take(8) == digest::sha256_digest(y).take(8)
}

/// An entry counts if and only if it is what trimming leaves of some string of the list, and is
/// not empty.
proof fn lemma_effective(no_proxy: Seq<Seq<char>>, e: Seq<char>)
    ensures
        proxy::effective(no_proxy).contains(e) <==> e.len() > 0 && exists|i: int|
            0 <= i < no_proxy.len() && text::trimmed(#[trigger] no_proxy[i]) == e,
    decreases no_proxy.len(),
{
    if no_proxy.len() > 0 {
        let shorter = no_proxy.drop_last();
        let before = proxy::effective(shorter);
        let all = proxy::effective(no_proxy);
        let entry = text::trimmed(no_proxy.last());
        lemma_effective(shorter, e);
        assert(shorter.len() == no_proxy.len() - 1);
        assert(all.contains(e) <==> before.contains(e) || (entry.len() > 0 && e == entry)) by {
            if entry.len() > 0 {
                assert(all.drop_last() =~= before);
                ordering::lemma_contains_last(all, e);
            }
        }
        if exists|i: int| 0 <= i < shorter.len() && text::trimmed(#[trigger] shorter[i]) == e {
            let i = choose|i: int| 0 <= i < shorter.len() && text::trimmed(#[trigger] shorter[i]) == e;
            assert(text::trimmed(no_proxy[i]) == e);
        }
        if exists|i: int| 0 <= i < no_proxy.len() && text::trimmed(#[trigger] no_proxy[i]) == e {
            let i = choose|i: int|
                0 <= i < no_proxy.len() && text::trimmed(#[trigger] no_proxy[i]) == e;
            if i < shorter.len() {
                assert(text::trimmed(shorter[i]) == e);
            }
        }
        assert(text::trimmed(no_proxy[no_proxy.len() - 1]) == entry);
    } else {
        assert(!proxy::effective(no_proxy).contains(e));
    }
}

/// Neither the order of the destinations nor how often one is listed matters.
pub proof fn law_order_and_duplicates_ignored(a: Seq<Seq<char>>, b: Seq<Seq<char>>)
    requires
        forall|s: Seq<char>| #[trigger] a.contains(s) <==> b.contains(s),
    ensures
        same_entries(a, b),
{
    assert forall|e: Seq<char>|
        #[trigger] proxy::effective(a).contains(e) <==> proxy::effective(b).contains(e) by {
        lemma_effective(a, e);
        lemma_effective(b, e);
        if proxy::effective(a).contains(e) {
            let i = choose|i: int| 0 <= i < a.len() && text::trimmed(#[trigger] a[i]) == e;
            assert(a.contains(a[i]));
            assert(b.contains(a[i]));
            let j = choose|j: int| 0 <= j < b.len() && b[j] == a[i];
            assert(text::trimmed(b[j]) == e);
        }
        if proxy::effective(b).contains(e) {
            let i = choose|i: int| 0 <= i < b.len() && text::trimmed(#[trigger] b[i]) == e;
            assert(b.contains(b[i]));
            assert(a.contains(b[i]));
            let j = choose|j: int| 0 <= j < a.len() && a[j] == b[i];
            assert(text::trimmed(a[j]) == e);
        }
    }
}

/// Two lists whose strings are equal once trimmed name the same destinations.
proof fn lemma_trimmed_alike(a: Seq<Seq<char>>, b: Seq<Seq<char>>)
    requires
        a.len() == b.len(),
        forall|i: int| 0 <= i < a.len() ==> text::trimmed(#[trigger] a[i]) == text::trimmed(b[i]),
    ensures
        proxy::effective(a) == proxy::effective(b),
    decreases a.len(),
{
    if a.len() > 0 {
        let c = a.drop_last();
        let d = b.drop_last();
        assert forall|i: int| 0 <= i < c.len() implies text::trimmed(#[trigger] c[i])
            == text::trimmed(d[i]) by {
            assert(c[i] == a[i] && d[i] == b[i]);
        }
        lemma_trimmed_alike(c, d);
        assert(text::trimmed(a[a.len() - 1]) == text::trimmed(b[a.len() - 1]));
    }
}

proof fn lemma_blank_leading(blank: Seq<char>, s: Seq<char>)
    requires
        is_blank(blank),
    ensures
        text::without_leading(blank + s) == text::without_leading(s),
    decreases blank.len(),
{
    if blank.len() == 0 {
        assert(blank + s =~= s);
    } else {
        let tail = blank.drop_first();
        assert forall|i: int| 0 <= i < tail.len() implies text::is_white_space(
            #[trigger] tail[i],
        ) by {
            assert(tail[i] == blank[i + 1]);
        }
        lemma_blank_leading(tail, s);
        assert((blank + s).first() == blank[0]);
        assert((blank + s).drop_first() =~= tail + s);
    }
}

proof fn lemma_blank_trailing(s: Seq<char>, blank: Seq<char>)
    requires
        is_blank(blank),
    ensures
        text::without_trailing(s + blank) == text::without_trailing(s),
    decreases blank.len(),
{
    if blank.len() == 0 {
        assert(s + blank =~= s);
    } else {
        let front = blank.drop_last();
        assert forall|i: int| 0 <= i < front.len() implies text::is_white_space(
            #[trigger] front[i],
        ) by {
            assert(front[i] == blank[i]);
        }
        lemma_blank_trailing(s, front);
        assert((s + blank).last() == blank[blank.len() - 1]);
        assert((s + blank).drop_last() =~= s + front);
    }
}

proof fn lemma_leading_then_blank(s: Seq<char>, blank: Seq<char>)
    requires
        is_blank(blank),
    ensures
        text::trimmed(s + blank) == text::trimmed(s),
    decreases s.len(),
{
    if s.len() == 0 {
        assert(s + blank =~= blank + Seq::empty());
        lemma_blank_leading(blank, Seq::empty());
        assert(text::without_leading(Seq::empty()) =~= Seq::<char>::empty());
        assert(s =~= Seq::empty());
    } else if text::is_white_space(s.first()) {
        lemma_leading_then_blank(s.drop_first(), blank);
        assert((s + blank).first() == s.first());
        assert((s + blank).drop_first() =~= s.drop_first() + blank);
    } else {
        assert((s + blank).first() == s.first());
        lemma_blank_trailing(s, blank);
    }
}

/// White space around a destination does not matter.
pub proof fn law_padding_ignored(
    no_proxy: Seq<Seq<char>>,
    i: int,
    before: Seq<char>,
    after: Seq<char>,
)
    requires
        0 <= i < no_proxy.len(),
        is_blank(before),
        is_blank(after),
    ensures
        proxy::effective(no_proxy.update(i, before + no_proxy[i] + after)) == proxy::effective(
            no_proxy,
        ),
{
    let padded = no_proxy.update(i, before + no_proxy[i] + after);
    assert(before + no_proxy[i] + after =~= before + (no_proxy[i] + after));
    lemma_blank_leading(before, no_proxy[i] + after);
    lemma_leading_then_blank(no_proxy[i], after);
    lemma_trimmed_alike(padded, no_proxy);
}

/// A blank destination is skipped, wherever in the list it stands.
pub proof fn law_blank_skipped(no_proxy: Seq<Seq<char>>, i: int, blank: Seq<char>)
    requires
        0 <= i <= no_proxy.len(),
        is_blank(blank),
    ensures
        proxy::effective(no_proxy.insert(i, blank)) == proxy::effective(no_proxy),
    decreases no_proxy.len(),
{
    let longer = no_proxy.insert(i, blank);
    if i == no_proxy.len() {
        assert(blank + Seq::empty() =~= blank);
        lemma_blank_leading(blank, Seq::empty());
        assert(text::trimmed(blank) =~= Seq::empty());
        assert(longer.drop_last() =~= no_proxy);
    } else {
        law_blank_skipped(no_proxy.drop_last(), i, blank);
        assert(longer.drop_last() =~= no_proxy.drop_last().insert(i, blank));
        assert(longer.last() == no_proxy.last());
    }
}

/// The `NO_PROXY` value lists each destination once, in order: what trimming leaves of the strings
/// of the list, and nothing blank.
pub proof fn law_destinations_listed_once_in_order(no_proxy: Seq<Seq<char>>) -> (list: Seq<
    Seq<char>,
>)
    ensures
        proxy::no_proxy_value(no_proxy) == text::joined(list, ","@),
        ordering::ascending(list),
        list.no_duplicates(),
        forall|e: Seq<char>| #[trigger]
            list.contains(e) <==> e.len() > 0 && exists|i: int|
                0 <= i < no_proxy.len() && text::trimmed(#[trigger] no_proxy[i]) == e,
{
    let entries = proxy::effective(no_proxy);
    let list = ordering::sorted_distinct(entries);
    ordering::lemma_sorted_distinct(entries);
    assert forall|e: Seq<char>| #[trigger] list.contains(e) <==> e.len() > 0 && exists|i: int|
        0 <= i < no_proxy.len() && text::trimmed(#[trigger] no_proxy[i]) == e by {
        lemma_effective(no_proxy, e);
        assert(list.contains(e) <==> entries.contains(e));
    }
    assert forall|i: int, j: int| 0 <= i < list.len() && 0 <= j < list.len() && i != j implies list[i]
        != list[j] by {
        let (low, high) = if i < j {
            (i, j)
        } else {
            (j, i)
        };
        assert(ordering::precedes(list[low], list[high]));
        ordering::lemma_precedes_irreflexive(list[low]);
    }
    list
}

/// The same settings are accepted or refused alike, and give the same spec.
pub proof fn law_same_settings_same_spec(
    p: Option<DpfProxyDetailsView>,
    q: Option<DpfProxyDetailsView>,
)
    requires
        same_settings(p, q),
    ensures
        flavor::refusal(p) == flavor::refusal(q),
        flavor::default_spec(p) == flavor::default_spec(q),
{
    if let (Some(p), Some(q)) = (p, q) {
        lemma_same_settings(p, q);
        assert(proxy::drop_in(p) == proxy::drop_in(q));
    }
}

proof fn lemma_same_settings(p: DpfProxyDetailsView, q: DpfProxyDetailsView)
    requires
        same_settings(Some(p), Some(q)),
    ensures
        proxy::refusal(p) == proxy::refusal(q),
        written_alike(Some(p), Some(q)),
{
    let a = proxy::effective(p.no_proxy);
    let b = proxy::effective(q.no_proxy);
    lemma_same_strings(a, b);
    assert forall|e: Seq<char>| #[trigger] b.contains(e) <==> a.contains(e) by {
        assert(a.contains(e) <==> b.contains(e));
    }
    lemma_same_strings(b, a);
    ordering::lemma_sorted_distinct_same(a, b);
}

proof fn lemma_same_strings(a: Seq<Seq<char>>, b: Seq<Seq<char>>)
    requires
        forall|e: Seq<char>| #[trigger] a.contains(e) <==> b.contains(e),
    ensures
        b.len() == 0 ==> a.len() == 0,
        proxy::all_safe(b) ==> proxy::all_safe(a),
{
    if a.len() > 0 {
        assert(a.contains(a[0]));
        assert(b.contains(a[0]));
    }
    if proxy::all_safe(b) {
        assert forall|i: int| 0 <= i < a.len() implies proxy::is_safe(#[trigger] a[i]) by {
            assert(a.contains(a[i]));
            assert(b.contains(a[i]));
            let j = choose|j: int| 0 <= j < b.len() && b[j] == a[i];
            assert(proxy::is_safe(b[j]));
        }
    }
}

/// The lines of a text that starts with a whole line.
proof fn lemma_lines_cons(line: Seq<char>, rest: Seq<char>)
    requires
        forall|i: int| 0 <= i < line.len() ==> #[trigger] line[i] != '\n',
    ensures
        text::lines(line + seq!['\n'] + rest) == seq![line] + text::lines(rest),
    decreases line.len(),
{
    let all = line + seq!['\n'] + rest;
    if line.len() == 0 {
        assert(all.skip(1) =~= rest);
        assert(line =~= Seq::empty());
    } else {
        let tail = line.skip(1);
        assert forall|i: int| 0 <= i < tail.len() implies #[trigger] tail[i] != '\n' by {
            assert(tail[i] == line[i + 1]);
        }
        lemma_lines_cons(tail, rest);
        assert(all.skip(1) =~= tail + seq!['\n'] + rest);
        assert(all[0] == line[0]);
        assert(all.take(1) + tail =~= line);
        assert(text::lines(all) =~= seq![line] + text::lines(rest));
    }
}

/// The line, without its end, that sets an environment variable.
pub open spec fn assignment(variable: Seq<char>, value: Seq<char>) -> Seq<char> {
    "Environment=\""@ + variable + "="@ + value + "\""@
}

/// The lines that a drop-in should have.
pub open spec fn drop_in_lines(p: DpfProxyDetailsView) -> Seq<Seq<char>> {
    let service = seq![
        "[Service]"@,
        assignment("HTTPS_PROXY"@, p.https_proxy),
        assignment("https_proxy"@, p.https_proxy),
    ];
    if proxy::effective(p.no_proxy).len() == 0 {
        service
    } else {
        service + seq![
            assignment("NO_PROXY"@, proxy::no_proxy_value(p.no_proxy)),
            assignment("no_proxy"@, proxy::no_proxy_value(p.no_proxy)),
        ]
    }
}

proof fn lemma_joined_safe(list: Seq<Seq<char>>)
    requires
        proxy::all_safe(list),
    ensures
        proxy::is_safe(text::joined(list, ","@)),
    decreases list.len(),
{
    reveal_strlit(",");
    if list.len() == 1 {
        assert(proxy::is_safe(list[0]));
    } else if list.len() > 1 {
        let front = list.drop_last();
        assert forall|i: int| 0 <= i < front.len() implies proxy::is_safe(#[trigger] front[i]) by {
            assert(front[i] == list[i]);
        }
        lemma_joined_safe(front);
        assert(proxy::is_safe(list[list.len() - 1]));
        let value = text::joined(list, ","@);
        let head = text::joined(front, ","@);
        assert forall|i: int| 0 <= i < value.len() implies !proxy::is_forbidden(
            #[trigger] value[i],
        ) by {
            if i < head.len() {
                assert(value[i] == head[i]);
            } else if i > head.len() {
                assert(value[i] == list.last()[i - head.len() - 1]);
            }
        }
    }
}

/// The value of the `NO_PROXY` variables of an accepted proxy is safe.
proof fn lemma_no_proxy_value_safe(p: DpfProxyDetailsView)
    requires
        proxy::refusal(p) is None,
    ensures
        proxy::is_safe(proxy::no_proxy_value(p.no_proxy)),
{
    let entries = proxy::effective(p.no_proxy);
    let list = ordering::sorted_distinct(entries);
    ordering::lemma_sorted_distinct(entries);
    lemma_same_strings(list, entries);
    lemma_joined_safe(list);
}

proof fn lemma_assignment_line(variable: Seq<char>, value: Seq<char>)
    requires
        proxy::is_safe(variable),
        proxy::is_safe(value),
    ensures
        proxy::environment_line(variable, value) == assignment(variable, value) + seq!['\n'],
        forall|i: int|
            0 <= i < assignment(variable, value).len() ==> #[trigger] assignment(
                variable,
                value,
            )[i] != '\n',
{
    reveal_strlit("Environment=\"");
    reveal_strlit("=");
    reveal_strlit("\"");
    reveal_strlit("\"\n");
    let line = assignment(variable, value);
    assert(proxy::environment_line(variable, value) =~= line + seq!['\n']);
    assert forall|i: int| 0 <= i < line.len() implies #[trigger] line[i] != '\n' by {
        let start = "Environment=\""@.len();
        if start <= i < start + variable.len() {
            assert(line[i] == variable[i - start]);
            assert(!proxy::is_forbidden(variable[i - start]));
        } else if start + variable.len() < i < line.len() - 1 {
            let k = i - start - variable.len() - 1;
            assert(line[i] == value[k]);
            assert(!proxy::is_forbidden(value[k]));
        }
    }
}

/// The drop-in of an accepted proxy is a unit file of whole lines: the section, then one
/// assignment per variable, whose value holds neither a quote nor a control character. No setting
/// can add a line, end one early or close a quote.
pub proof fn law_drop_in_lines(p: DpfProxyDetailsView)
    requires
        proxy::refusal(p) is None,
    ensures
        text::lines(proxy::drop_in(p)) == drop_in_lines(p),
        proxy::drop_in(p).last() == '\n',
        proxy::is_safe(p.https_proxy),
        proxy::is_safe(proxy::no_proxy_value(p.no_proxy)),
{
    lemma_no_proxy_value_safe(p);
    reveal_strlit("[Service]\n");
    reveal_strlit("[Service]");
    reveal_strlit("HTTPS_PROXY");
    reveal_strlit("https_proxy");
    reveal_strlit("NO_PROXY");
    reveal_strlit("no_proxy");
    let value = proxy::no_proxy_value(p.no_proxy);
    let l0 = "[Service]"@;
    let l1 = assignment("HTTPS_PROXY"@, p.https_proxy);
    let l2 = assignment("https_proxy"@, p.https_proxy);
    let l3 = assignment("NO_PROXY"@, value);
    let l4 = assignment("no_proxy"@, value);
    lemma_assignment_line("HTTPS_PROXY"@, p.https_proxy);
    lemma_assignment_line("https_proxy"@, p.https_proxy);
    lemma_assignment_line("NO_PROXY"@, value);
    lemma_assignment_line("no_proxy"@, value);
    let end = Seq::<char>::empty();
    let t4 = l4 + seq!['\n'] + end;
    let t3 = l3 + seq!['\n'] + t4;
    let more = if proxy::effective(p.no_proxy).len() == 0 {
        end
    } else {
        t3
    };
    let t2 = l2 + seq!['\n'] + more;
    let t1 = l1 + seq!['\n'] + t2;
    assert("[Service]\n"@ =~= l0 + seq!['\n']);
    assert(proxy::drop_in(p) =~= l0 + seq!['\n'] + t1);
    lemma_lines_cons(l4, end);
    lemma_lines_cons(l3, t4);
    lemma_lines_cons(l2, more);
    lemma_lines_cons(l1, t2);
    lemma_lines_cons(l0, t1);
    assert(text::lines(proxy::drop_in(p)) =~= drop_in_lines(p));
}

proof fn lemma_assignment_injective(variable: Seq<char>, v: Seq<char>, w: Seq<char>)
    requires
        assignment(variable, v) == assignment(variable, w),
    ensures
        v == w,
{
    let a = assignment(variable, v);
    let b = assignment(variable, w);
    let start = ("Environment=\""@ + variable + "="@).len() as int;
    assert(a.len() == start + v.len() + "\""@.len());
    assert(b.len() == start + w.len() + "\""@.len());
    assert forall|i: int| 0 <= i < v.len() implies v[i] == w[i] by {
        assert(a[start + i] == v[i]);
        assert(b[start + i] == w[i]);
    }
    assert(v =~= w);
}

proof fn lemma_joined_nonempty(list: Seq<Seq<char>>)
    requires
        list.len() > 0,
        list[0].len() > 0,
    ensures
        text::joined(list, ","@).len() > 0,
{
    reveal_strlit(",");
}

/// A list of strings without commas can be read off the strings joined by commas.
proof fn lemma_joined_injective(a: Seq<Seq<char>>, b: Seq<Seq<char>>)
    requires
        forall|i: int| 0 <= i < a.len() ==> is_comma_free(#[trigger] a[i]) && a[i].len() > 0,
        forall|i: int| 0 <= i < b.len() ==> is_comma_free(#[trigger] b[i]) && b[i].len() > 0,
        text::joined(a, ","@) == text::joined(b, ","@),
    ensures
        a == b,
    decreases a.len(),
{
    reveal_strlit(",");
    let x = text::joined(a, ","@);
    let y = text::joined(b, ","@);
    if a.len() == 0 || b.len() == 0 {
        if a.len() > 0 {
            lemma_joined_nonempty(a);
        }
        if b.len() > 0 {
            lemma_joined_nonempty(b);
        }
        assert(a =~= b);
    } else {
        let c = a.drop_last();
        let d = b.drop_last();
        let m = text::joined(c, ","@);
        let n = text::joined(d, ","@);
        let s = a.last();
        let t = b.last();
        assert(is_comma_free(a[a.len() - 1]));
        assert(is_comma_free(b[b.len() - 1]));
        if a.len() == 1 && b.len() == 1 {
            assert(a =~= b);
        } else if a.len() == 1 {
            assert(y[n.len() as int] == ',');
            assert(x[n.len() as int] == s[n.len() as int]);
        } else if b.len() == 1 {
            assert(x[m.len() as int] == ',');
            assert(y[m.len() as int] == t[m.len() as int]);
        } else {
            assert(x == m + ","@ + s);
            assert(y == n + ","@ + t);
            assert(x.len() == m.len() + 1 + s.len());
            assert(y.len() == n.len() + 1 + t.len());
            if s.len() < t.len() {
                assert(x[m.len() as int] == ',');
                assert(y[m.len() as int] == t[m.len() - n.len() - 1]);
            } else if t.len() < s.len() {
                assert(y[n.len() as int] == ',');
                assert(x[n.len() as int] == s[n.len() - m.len() - 1]);
            }
            assert forall|i: int| 0 <= i < m.len() implies m[i] == n[i] by {
                assert(x[i] == m[i]);
                assert(y[i] == n[i]);
            }
            assert(m =~= n);
            assert forall|i: int| 0 <= i < s.len() implies s[i] == t[i] by {
                assert(x[m.len() + 1 + i] == s[i]);
                assert(y[n.len() + 1 + i] == t[i]);
            }
            assert(s =~= t);
            assert forall|i: int| 0 <= i < c.len() implies is_comma_free(#[trigger] c[i])
                && c[i].len() > 0 by {
                assert(c[i] == a[i]);
            }
            assert forall|i: int| 0 <= i < d.len() implies is_comma_free(#[trigger] d[i])
                && d[i].len() > 0 by {
                assert(d[i] == b[i]);
            }
            lemma_joined_injective(c, d);
            assert(a =~= c.push(s));
            assert(b =~= d.push(t));
        }
    }
}

/// The sorted destinations of a proxy are not empty and hold no comma, and are the destinations.
proof fn lemma_sorted_entries(p: DpfProxyDetailsView)
    requires
        has_plain_entries(Some(p)),
    ensures
        forall|i: int|
            0 <= i < ordering::sorted_distinct(proxy::effective(p.no_proxy)).len() ==> {
                let e = #[trigger] ordering::sorted_distinct(proxy::effective(p.no_proxy))[i];
                is_comma_free(e) && e.len() > 0
            },
        forall|e: Seq<char>| #[trigger]
            ordering::sorted_distinct(proxy::effective(p.no_proxy)).contains(e)
                <==> proxy::effective(p.no_proxy).contains(e),
{
    let entries = proxy::effective(p.no_proxy);
    let list = ordering::sorted_distinct(entries);
    ordering::lemma_sorted_distinct(entries);
    assert forall|i: int| 0 <= i < list.len() implies is_comma_free(#[trigger] list[i])
        && list[i].len() > 0 by {
        assert(list.contains(list[i]));
        assert(entries.contains(list[i]));
        lemma_effective(p.no_proxy, list[i]);
        let j = choose|j: int| 0 <= j < entries.len() && entries[j] == list[i];
        assert(is_comma_free(entries[j]));
    }
}

/// Accepted proxies give the same spec if and only if they are written alike: a proxy and none
/// never do, nor do two URLs, two different `NO_PROXY` values, or such a value and none.
pub proof fn law_spec_determines_proxy(
    p: Option<DpfProxyDetailsView>,
    q: Option<DpfProxyDetailsView>,
)
    requires
        flavor::refusal(p) is None,
        flavor::refusal(q) is None,
    ensures
        flavor::default_spec(p) == flavor::default_spec(q) <==> written_alike(p, q),
{
    if written_alike(p, q) {
        if let (Some(p), Some(q)) = (p, q) {
            assert(proxy::drop_in(p) == proxy::drop_in(q));
        }
    }
    if flavor::default_spec(p) == flavor::default_spec(q) {
        let f = flavor::config_files(p);
        let g = flavor::config_files(q);
        assert(flavor::default_spec(p).config_files == Some(f));
        assert(flavor::default_spec(q).config_files == Some(g));
        assert(f == g);
        assert(f.len() == g.len());
        if let (Some(p), Some(q)) = (p, q) {
            assert(f.last().raw == Some(proxy::drop_in(p)));
            assert(g.last().raw == Some(proxy::drop_in(q)));
            lemma_drop_in_injective(p, q);
        }
    }
}

/// The settings can be read off the drop-in as far as they are written.
proof fn lemma_drop_in_injective(p: DpfProxyDetailsView, q: DpfProxyDetailsView)
    requires
        proxy::refusal(p) is None,
        proxy::refusal(q) is None,
        proxy::drop_in(p) == proxy::drop_in(q),
    ensures
        written_alike(Some(p), Some(q)),
{
    law_drop_in_lines(p);
    law_drop_in_lines(q);
    let k = drop_in_lines(p);
    let l = drop_in_lines(q);
    assert(k == l);
    assert(k[1] == assignment("HTTPS_PROXY"@, p.https_proxy));
    assert(l[1] == assignment("HTTPS_PROXY"@, q.https_proxy));
    lemma_assignment_injective("HTTPS_PROXY"@, p.https_proxy, q.https_proxy);
    let a = proxy::effective(p.no_proxy);
    let b = proxy::effective(q.no_proxy);
    assert(k.len() == if a.len() == 0 { 3int } else { 5int });
    assert(l.len() == if b.len() == 0 { 3int } else { 5int });
    if a.len() > 0 {
        assert(k[3] == assignment("NO_PROXY"@, proxy::no_proxy_value(p.no_proxy)));
        assert(l[3] == assignment("NO_PROXY"@, proxy::no_proxy_value(q.no_proxy)));
        lemma_assignment_injective(
            "NO_PROXY"@,
            proxy::no_proxy_value(p.no_proxy),
            proxy::no_proxy_value(q.no_proxy),
        );
    }
}

/// The same settings are written alike, with commas or without.
pub proof fn law_same_settings_written_alike(
    p: Option<DpfProxyDetailsView>,
    q: Option<DpfProxyDetailsView>,
)
    requires
        same_settings(p, q),
    ensures
        written_alike(p, q),
{
    if let (Some(p), Some(q)) = (p, q) {
        lemma_same_settings(p, q);
    }
}

/// Where no destination holds a comma, only the same settings are written alike. (With commas,
/// `a,b` and the two destinations `a` and `b` are.)
pub proof fn law_written_alike_same_settings(
    p: Option<DpfProxyDetailsView>,
    q: Option<DpfProxyDetailsView>,
)
    requires
        has_plain_entries(p),
        has_plain_entries(q),
        written_alike(p, q),
    ensures
        same_settings(p, q),
{
    if let (Some(p), Some(q)) = (p, q) {
        let a = proxy::effective(p.no_proxy);
        let b = proxy::effective(q.no_proxy);
        if a.len() == 0 {
            assert(a =~= b);
        } else {
            lemma_sorted_entries(p);
            lemma_sorted_entries(q);
            let list = ordering::sorted_distinct(a);
            lemma_joined_injective(list, ordering::sorted_distinct(b));
            assert forall|e: Seq<char>| #[trigger] a.contains(e) <==> b.contains(e) by {
                assert(list.contains(e) <==> a.contains(e));
                assert(list.contains(e) <==> b.contains(e));
            }
        }
    }
}

/// Accepted proxies without commas in their destinations that give the same spec are the same
/// settings: adding a proxy, another URL or another destination shows in the spec.
pub proof fn law_spec_determines_settings(
    p: Option<DpfProxyDetailsView>,
    q: Option<DpfProxyDetailsView>,
)
    requires
        flavor::refusal(p) is None,
        flavor::refusal(q) is None,
        has_plain_entries(p),
        has_plain_entries(q),
        flavor::default_spec(p) == flavor::default_spec(q),
    ensures
        same_settings(p, q),
{
    law_spec_determines_proxy(p, q);
    law_written_alike_same_settings(p, q);
}

/// The name depends on the spec alone: flavors that differ only in their metadata have the same
/// name under the same prefix.
pub proof fn law_name_ignores_metadata(a: DPUFlavorView, b: DPUFlavorView, prefix: Seq<char>)
    requires
        a.spec == b.spec,
    ensures
        flavor::flavor_name(a.spec, prefix) == flavor::flavor_name(b.spec, prefix),
{
}

/// The name changes whenever the spec changes, unless the two documents' digests start alike.
pub proof fn law_name_changes_with_spec(
    a: DpuFlavorSpecView,
    b: DpuFlavorSpecView,
    prefix: Seq<char>,
)
    requires
        document::well_formed(a),
        document::well_formed(b),
        a != b,
        !collide(flavor::spec_bytes(a), flavor::spec_bytes(b)),
    ensures
        flavor::flavor_name(a, prefix) != flavor::flavor_name(b, prefix),
{
    if flavor::flavor_name(a, prefix) == flavor::flavor_name(b, prefix) {
        let x = digest::sha256_digest(flavor::spec_bytes(a)).take(8);
        let y = digest::sha256_digest(flavor::spec_bytes(b)).take(8);
        let head = prefix + "-"@;
        json::lemma_prefix_same(head, digest::hex_text(x), digest::hex_text(y));
        digest::lemma_hex_text_injective(x, y);
        assert(flavor::spec_bytes(a) == flavor::spec_bytes(b));
        utf8::encode_utf8_decode_utf8(json::compact(a.tree()));
        utf8::encode_utf8_decode_utf8(json::compact(b.tree()));
        document::law_document_injective(a, b);
    }
}

/// The same settings give the same name under the same prefix.
pub proof fn law_same_settings_same_name(
    p: Option<DpfProxyDetailsView>,
    q: Option<DpfProxyDetailsView>,
    prefix: Seq<char>,
)
    requires
        same_settings(p, q),
    ensures
        flavor::flavor_name(flavor::default_spec(p), prefix) == flavor::flavor_name(
            flavor::default_spec(q),
            prefix,
        ),
{
    law_same_settings_same_spec(p, q);
}

/// Accepted proxies give the same name if and only if they are written alike, unless the two
/// documents' digests start alike.
pub proof fn law_name_determines_proxy(
    p: Option<DpfProxyDetailsView>,
    q: Option<DpfProxyDetailsView>,
    prefix: Seq<char>,
)
    requires
        flavor::refusal(p) is None,
        flavor::refusal(q) is None,
        !collide(
            flavor::spec_bytes(flavor::default_spec(p)),
            flavor::spec_bytes(flavor::default_spec(q)),
        ),
    ensures
        flavor::flavor_name(flavor::default_spec(p), prefix) == flavor::flavor_name(
            flavor::default_spec(q),
            prefix,
        ) <==> written_alike(p, q),
{
    law_spec_determines_proxy(p, q);
    if !written_alike(p, q) {
        law_name_changes_with_spec(flavor::default_spec(p), flavor::default_spec(q), prefix);
    }
}

/// Other settings without commas in their destinations give another name, unless the two
/// documents' digests start alike.
pub proof fn law_other_settings_other_name(
    p: Option<DpfProxyDetailsView>,
    q: Option<DpfProxyDetailsView>,
    prefix: Seq<char>,
)
    requires
        flavor::refusal(p) is None,
        flavor::refusal(q) is None,
        has_plain_entries(p),
        has_plain_entries(q),
        !same_settings(p, q),
        !collide(
            flavor::spec_bytes(flavor::default_spec(p)),
            flavor::spec_bytes(flavor::default_spec(q)),
        ),
    ensures
        flavor::flavor_name(flavor::default_spec(p), prefix) != flavor::flavor_name(
            flavor::default_spec(q),
            prefix,
        ),
{
    if written_alike(p, q) {
        law_written_alike_same_settings(p, q);
    }
    law_name_determines_proxy(p, q, prefix);
}

/// A proxy adds one file, after those that every flavor has, and changes none of them.
pub proof fn law_proxy_adds_one_file(p: Option<DpfProxyDetailsView>)
    ensures
        flavor::config_files(p).len() == 5 + if p is Some { 1int } else { 0int },
        flavor::config_files(p).take(5) == flavor::config_files(None),
        flavor::config_files(None) == flavor::base_config_files(),
{
    assert(flavor::config_files(p).take(5) =~= flavor::base_config_files());
}

/// Nothing but the files of a default flavor depends on the proxy.
pub proof fn law_proxy_changes_only_files(p: Option<DpfProxyDetailsView>)
    ensures
        flavor::default_spec(p) == (DpuFlavorSpecView {
            config_files: Some(flavor::config_files(p)),
            ..flavor::default_spec(None)
        }),
{
}

/// Every host-facing interface has its rule among those written.
pub proof fn law_rules_cover_interface(n: nat, k: int) -> (parts: (Seq<char>, Seq<char>))
    requires
        0 <= k < n,
    ensures
        flavor::acl_rules(n) == parts.0 + flavor::acl_rule(flavor::host_interface(k)) + parts.1,
    decreases n,
{
    let m = (n - 1) as nat;
    if k == m {
        let parts = (flavor::acl_rules(m), Seq::empty());
        assert(flavor::acl_rules(n) =~= parts.0 + flavor::acl_rule(flavor::host_interface(k))
            + parts.1);
        parts
    } else {
        let inner = law_rules_cover_interface(m, k);
        let parts = (inner.0, inner.1 + flavor::acl_rule(flavor::host_interface(m as int)));
        assert(flavor::acl_rules(n) =~= parts.0 + flavor::acl_rule(flavor::host_interface(k))
            + parts.1);
        parts
    }
}

/// A proxy is refused if and only if some character of its URL, or of what trimming leaves of one
/// of its `no_proxy` strings, is a double quote or an ASCII control character. Settings without
/// such a character are never refused. A bad URL is named before a bad entry.
pub proof fn law_refused_for_characters(p: DpfProxyDetailsView)
    ensures
        proxy::refusal(p) == if exists|i: int|
            {
                &&& 0 <= i < p.https_proxy.len()
                &&& {
                    let c = #[trigger] p.https_proxy[i];
                    c == '"' || (c as int) <= 0x1f || c as int == 0x7f
                }
            } {
            Some("proxy https_proxy contains characters that are not allowed in a systemd Environment= value (quotes, newlines, or control characters)"@)
        } else if exists|k: int, i: int|
            {
                &&& 0 <= k < p.no_proxy.len()
                &&& 0 <= i < text::trimmed(p.no_proxy[k]).len()
                &&& {
                    let c = #[trigger] text::trimmed(p.no_proxy[k])[i];
                    c == '"' || (c as int) <= 0x1f || c as int == 0x7f
                }
            } {
            Some("proxy no_proxy entry contains characters that are not allowed in a systemd Environment= value (quotes, newlines, or control characters)"@)
        } else {
            None
        },
{
    lemma_refusal_messages();
    let url = p.https_proxy;
    if !proxy::is_safe(url) {
        let i = choose|i: int| 0 <= i < url.len() && proxy::is_forbidden(#[trigger] url[i]);
        assert(proxy::is_forbidden(url[i]));
    } else {
        assert forall|i: int| 0 <= i < url.len() implies {
            let c = #[trigger] url[i];
            !(c == '"' || (c as int) <= 0x1f || c as int == 0x7f)
        } by {
            assert(!proxy::is_forbidden(url[i]));
        }
        let entries = proxy::effective(p.no_proxy);
        if !proxy::all_safe(entries) {
            let n = choose|n: int| 0 <= n < entries.len() && !proxy::is_safe(#[trigger] entries[n]);
            let entry = entries[n];
            assert(entries.contains(entry));
            lemma_effective(p.no_proxy, entry);
            let k = choose|k: int|
                0 <= k < p.no_proxy.len() && text::trimmed(#[trigger] p.no_proxy[k]) == entry;
            let i = choose|i: int| 0 <= i < entry.len() && proxy::is_forbidden(#[trigger] entry[i]);
            assert(proxy::is_forbidden(text::trimmed(p.no_proxy[k])[i]));
        } else {
            assert forall|k: int, i: int|
                0 <= k < p.no_proxy.len() && 0 <= i < text::trimmed(p.no_proxy[k]).len() implies {
                let c = #[trigger] text::trimmed(p.no_proxy[k])[i];
                !(c == '"' || (c as int) <= 0x1f || c as int == 0x7f)
            } by {
                let entry = text::trimmed(p.no_proxy[k]);
                lemma_effective(p.no_proxy, entry);
                assert(entries.contains(entry));
                let n = choose|n: int| 0 <= n < entries.len() && entries[n] == entry;
                assert(proxy::is_safe(entries[n]));
                assert(!proxy::is_forbidden(entry[i]));
            }
        }
    }
}

proof fn lemma_refusal_messages()
    ensures
        proxy::rejection("https_proxy"@) == "proxy https_proxy contains characters that are not allowed in a systemd Environment= value (quotes, newlines, or control characters)"@,
        proxy::rejection("no_proxy entry"@) == "proxy no_proxy entry contains characters that are not allowed in a systemd Environment= value (quotes, newlines, or control characters)"@,
{
    reveal_strlit("proxy ");
    reveal_strlit("https_proxy");
    reveal_strlit("no_proxy entry");
    reveal_strlit(" contains characters that are not allowed in a systemd Environment= value (quotes, newlines, or control characters)");
    reveal_strlit("proxy https_proxy contains characters that are not allowed in a systemd Environment= value (quotes, newlines, or control characters)");
    reveal_strlit("proxy no_proxy entry contains characters that are not allowed in a systemd Environment= value (quotes, newlines, or control characters)");
    assert(proxy::rejection("https_proxy"@) =~= "proxy https_proxy contains characters that are not allowed in a systemd Environment= value (quotes, newlines, or control characters)"@);
    assert(proxy::rejection("no_proxy entry"@) =~= "proxy no_proxy entry contains characters that are not allowed in a systemd Environment= value (quotes, newlines, or control characters)"@);
}

/// A flavor without a proxy is never refused, and one with a proxy exactly as the proxy is.
pub proof fn law_refused_as_proxy(p: DpfProxyDetailsView)
    ensures
        flavor::refusal(None) is None,
        flavor::refusal(Some(p)) == proxy::refusal(p),
{
}

/// The `NO_PROXY` value is made of the destinations, each listed once and in order, and each
/// character for character: the first starts the value, the last ends it, and one comma stands
/// between two neighbours. The destinations are what trimming leaves of the strings of the list,
/// but for what is empty.
pub proof fn law_no_proxy_value(no_proxy: Seq<Seq<char>>) -> (parts: (Seq<Seq<char>>, Seq<int>))
    ensures
        forall|e: Seq<char>| #[trigger]
            parts.0.contains(e) <==> e.len() > 0 && exists|i: int|
                0 <= i < no_proxy.len() && text::trimmed(#[trigger] no_proxy[i]) == e,
        forall|i: int, j: int|
            0 <= i < j < parts.0.len() ==> ordering::precedes(
                #[trigger] parts.0[i],
                #[trigger] parts.0[j],
            ),
        parts.1.len() == parts.0.len(),
        parts.0.len() == 0 ==> proxy::no_proxy_value(no_proxy).len() == 0,
        parts.0.len() > 0 ==> parts.1[0] == 0 && proxy::no_proxy_value(no_proxy).len()
            == parts.1[parts.0.len() - 1] + parts.0[parts.0.len() - 1].len(),
        forall|i: int, k: int|
            0 <= i < parts.0.len() && 0 <= k < parts.0[i].len() ==> proxy::no_proxy_value(
                no_proxy,
            )[parts.1[i] + k] == #[trigger] parts.0[i][k],
        forall|i: int|
            0 <= i < parts.0.len() - 1 ==> parts.1[i + 1] == parts.1[i] + (
            #[trigger] parts.0[i]).len() + 1 && proxy::no_proxy_value(no_proxy)[parts.1[i]
                + parts.0[i].len()] == ',',
{
    reveal_strlit(",");
    let list = law_destinations_listed_once_in_order(no_proxy);
    let value = proxy::no_proxy_value(no_proxy);
    let starts = text::law_joined(list, ","@);
    assert forall|i: int, k: int| 0 <= i < list.len() && 0 <= k < list[i].len() implies value[starts[i]
        + k] == #[trigger] list[i][k] by {
        assert(text::stands_at(value, starts[i], list[i]));
        assert(value.subrange(starts[i], starts[i] + list[i].len())[k] == value[starts[i] + k]);
    }
    assert forall|i: int| 0 <= i < list.len() - 1 implies starts[i + 1] == starts[i] + (
    #[trigger] list[i]).len() + 1 && value[starts[i] + list[i].len()] == ',' by {
        let at = starts[i] + list[i].len();
        assert(text::stands_at(value, at, ","@));
        assert(value.subrange(at, at + 1)[0] == value[at]);
    }
    (list, starts)
}

/// The drop-in sets the URL as `HTTPS_PROXY` and as `https_proxy`, and, where some `no_proxy`
/// string is not blank, the `NO_PROXY` value as `NO_PROXY` and as `no_proxy`.
pub proof fn law_drop_in_text(p: DpfProxyDetailsView)
    ensures
        proxy::drop_in(p) == "[Service]\nEnvironment=\"HTTPS_PROXY="@ + p.https_proxy
            + "\"\nEnvironment=\"https_proxy="@ + p.https_proxy + "\"\n"@ + if exists|i: int|
            0 <= i < p.no_proxy.len() && text::trimmed(#[trigger] p.no_proxy[i]).len() > 0 {
            "Environment=\"NO_PROXY="@ + proxy::no_proxy_value(p.no_proxy)
                + "\"\nEnvironment=\"no_proxy="@ + proxy::no_proxy_value(p.no_proxy) + "\"\n"@
        } else {
            Seq::empty()
        },
{
    reveal_strlit("[Service]\n");
    reveal_strlit("Environment=\"");
    reveal_strlit("=");
    reveal_strlit("\"\n");
    reveal_strlit("HTTPS_PROXY");
    reveal_strlit("https_proxy");
    reveal_strlit("NO_PROXY");
    reveal_strlit("no_proxy");
    reveal_strlit("[Service]\nEnvironment=\"HTTPS_PROXY=");
    reveal_strlit("\"\nEnvironment=\"https_proxy=");
    reveal_strlit("Environment=\"NO_PROXY=");
    reveal_strlit("\"\nEnvironment=\"no_proxy=");
    let entries = proxy::effective(p.no_proxy);
    let value = proxy::no_proxy_value(p.no_proxy);
    if entries.len() > 0 {
        assert(entries.contains(entries[0]));
        lemma_effective(p.no_proxy, entries[0]);
    }
    if exists|i: int|
        0 <= i < p.no_proxy.len() && text::trimmed(#[trigger] p.no_proxy[i]).len() > 0 {
        let i = choose|i: int|
            0 <= i < p.no_proxy.len() && text::trimmed(#[trigger] p.no_proxy[i]).len() > 0;
        lemma_effective(p.no_proxy, text::trimmed(p.no_proxy[i]));
        assert(entries.contains(text::trimmed(p.no_proxy[i])));
    }
    assert("[Service]\n"@ + "Environment=\""@ + "HTTPS_PROXY"@ + "="@
        =~= "[Service]\nEnvironment=\"HTTPS_PROXY="@);
    assert("\"\n"@ + "Environment=\""@ + "https_proxy"@ + "="@ =~= "\"\nEnvironment=\"https_proxy="@);
    assert("Environment=\""@ + "NO_PROXY"@ + "="@ =~= "Environment=\"NO_PROXY="@);
    assert("\"\n"@ + "Environment=\""@ + "no_proxy"@ + "="@ =~= "\"\nEnvironment=\"no_proxy="@);
    let service = "[Service]\nEnvironment=\"HTTPS_PROXY="@ + p.https_proxy
        + "\"\nEnvironment=\"https_proxy="@ + p.https_proxy + "\"\n"@;
    let bypass = "Environment=\"NO_PROXY="@ + value + "\"\nEnvironment=\"no_proxy="@ + value
        + "\"\n"@;
    assert("[Service]\n"@ + proxy::environment_line("HTTPS_PROXY"@, p.https_proxy)
        + proxy::environment_line("https_proxy"@, p.https_proxy) =~= service);
    assert(proxy::environment_line("NO_PROXY"@, value) + proxy::environment_line(
        "no_proxy"@,
        value,
    ) =~= bypass);
    if entries.len() == 0 {
        assert(proxy::drop_in(p) =~= service + Seq::empty());
    } else {
        assert(proxy::drop_in(p) =~= service + bypass);
    }
}

/// Every base file stands under its own path with its own content, and nothing else stands under
/// that path, with or without a proxy. Every file replaces what is there, and its owner may write
/// and all may read it.
pub proof fn law_config_files(p: Option<DpfProxyDetailsView>)
    ensures
        flavor::config_files(p).len() == if p is Some {
            6int
        } else {
            5int
        },
        forall|i: int|
            0 <= i < flavor::config_files(p).len() ==> {
                let file = #[trigger] flavor::config_files(p)[i];
                &&& file.operation == Some(DpuFlavorConfigFilesOperation::Override)
                &&& file.permissions == Some("0644"@)
                &&& file.raw is Some
            },
        flavor::config_files(p)[0].path == Some(
            "/var/lib/hbn/etc/supervisor/conf.d/acltool.conf"@,
        ),
        flavor::config_files(p)[0].raw == Some(
            "[program: cl-acltool]\n\
            command = bash -c \"sleep 5 && /usr/cumulus/bin/cl-acltool -i\"\n\
            startsecs = 0\n\
            autorestart = false\n\
            priority = 200\n"@,
        ),
        flavor::config_files(p)[1].path == Some(
            "/var/lib/hbn/etc/cumulus/acl/policy.d/10-dhcp.rules"@,
        ),
        flavor::config_files(p)[1].raw == Some(flavor::acl_rules(flavor::HOST_INTERFACES as nat)),
        flavor::config_files(p)[2].path == Some("/etc/mellanox/mlnx-bf.conf"@),
        flavor::config_files(p)[2].raw == Some(
            "ALLOW_SHARED_RQ=\"no\"\n\
            IPSEC_FULL_OFFLOAD=\"no\"\n\
            ENABLE_ESWITCH_MULTIPORT=\"yes\"\n"@,
        ),
        flavor::config_files(p)[3].path == Some("/etc/mellanox/mlnx-ovs.conf"@),
        flavor::config_files(p)[3].raw == Some("CREATE_OVS_BRIDGES=\"no\"\nOVS_DOCA=\"yes\"\n"@),
        flavor::config_files(p)[4].path == Some("/etc/mellanox/mlnx-sf.conf"@),
        flavor::config_files(p)[4].raw == Some(""@),
        forall|i: int, j: int|
            0 <= i < j < flavor::config_files(p).len() ==> (#[trigger] flavor::config_files(p)[i]).path
                != (#[trigger] flavor::config_files(p)[j]).path,
        p matches Some(proxy) ==> flavor::config_files(p)[5].path == Some(
            "/etc/systemd/system/containerd.service.d/socks-proxy.conf"@,
        ) && flavor::config_files(p)[5].raw == Some(proxy::drop_in(proxy)),
{
    reveal_strlit("");
    reveal_strlit("/var/lib/hbn/etc/supervisor/conf.d/acltool.conf");
    reveal_strlit("/var/lib/hbn/etc/cumulus/acl/policy.d/10-dhcp.rules");
    reveal_strlit("/etc/mellanox/mlnx-bf.conf");
    reveal_strlit("/etc/mellanox/mlnx-ovs.conf");
    reveal_strlit("/etc/mellanox/mlnx-sf.conf");
    reveal_strlit("/etc/systemd/system/containerd.service.d/socks-proxy.conf");
    assert(""@ =~= Seq::empty());
    assert("/etc/mellanox/mlnx-bf.conf"@[19] == 'b' && "/etc/mellanox/mlnx-sf.conf"@[19] == 's');
    assert("/var/lib/hbn/etc/supervisor/conf.d/acltool.conf"@.len() == 47);
    assert("/var/lib/hbn/etc/cumulus/acl/policy.d/10-dhcp.rules"@.len() == 51);
    assert("/etc/mellanox/mlnx-bf.conf"@.len() == 26);
    assert("/etc/mellanox/mlnx-ovs.conf"@.len() == 27);
    assert("/etc/mellanox/mlnx-sf.conf"@.len() == 26);
    assert("/etc/systemd/system/containerd.service.d/socks-proxy.conf"@.len() == 57);
    assert forall|i: int, j: int| 0 <= i < j < flavor::config_files(p).len() implies (
    #[trigger] flavor::config_files(p)[i]).path != (#[trigger] flavor::config_files(p)[j]).path by {
        assert(i == 0 || i == 1 || i == 2 || i == 3 || i == 4);
        assert(j == 1 || j == 2 || j == 3 || j == 4 || j == 5);
    }
}

/// The rules start with their heading. Then comes one rule for each host-facing interface, in
/// order: the physical function's, and those of the sixteen virtual functions. Each rule drops the
/// DHCP broadcasts of its interface.
pub proof fn law_acl_rules() -> (rules: Seq<Seq<char>>)
    ensures
        flavor::acl_rules(flavor::HOST_INTERFACES as nat) == "[iptables]\n"@ + rules.flatten(),
        rules.len() == 17,
        forall|k: int|
            0 <= k < 17 ==> #[trigger] rules[k]
                == "-t filter -A FORWARD -p udp -d 255.255.255.255 --dport 67 -m physdev --physdev-in "@
                + seq![
                "pf0hpf_if"@,
                "pf0vf0_if"@,
                "pf0vf1_if"@,
                "pf0vf2_if"@,
                "pf0vf3_if"@,
                "pf0vf4_if"@,
                "pf0vf5_if"@,
                "pf0vf6_if"@,
                "pf0vf7_if"@,
                "pf0vf8_if"@,
                "pf0vf9_if"@,
                "pf0vf10_if"@,
                "pf0vf11_if"@,
                "pf0vf12_if"@,
                "pf0vf13_if"@,
                "pf0vf14_if"@,
                "pf0vf15_if"@,
            ][k] + " -m comment --comment 'offload:0' -j DROP\n"@,
{
    let rules = lemma_acl_rules(17);
    lemma_host_interfaces();
    rules
}

proof fn lemma_acl_rules(n: nat) -> (rules: Seq<Seq<char>>)
    ensures
        flavor::acl_rules(n) == "[iptables]\n"@ + rules.flatten(),
        rules.len() == n,
        forall|k: int|
            0 <= k < n ==> #[trigger] rules[k] == flavor::acl_rule(flavor::host_interface(k)),
    decreases n,
{
    if n == 0 {
        let rules = Seq::<Seq<char>>::empty();
        assert("[iptables]\n"@ + rules.flatten() =~= "[iptables]\n"@);
        rules
    } else {
        let before = lemma_acl_rules((n - 1) as nat);
        let rule = flavor::acl_rule(flavor::host_interface(n - 1));
        before.lemma_flatten_push(rule);
        assert("[iptables]\n"@ + (before.flatten() + rule) =~= "[iptables]\n"@ + before.flatten()
            + rule);
        before.push(rule)
    }
}

proof fn lemma_host_interfaces()
    ensures
        flavor::host_interface(0) == "pf0hpf_if"@,
        flavor::host_interface(1) == "pf0vf0_if"@,
        flavor::host_interface(2) == "pf0vf1_if"@,
        flavor::host_interface(3) == "pf0vf2_if"@,
        flavor::host_interface(4) == "pf0vf3_if"@,
        flavor::host_interface(5) == "pf0vf4_if"@,
        flavor::host_interface(6) == "pf0vf5_if"@,
        flavor::host_interface(7) == "pf0vf6_if"@,
        flavor::host_interface(8) == "pf0vf7_if"@,
        flavor::host_interface(9) == "pf0vf8_if"@,
        flavor::host_interface(10) == "pf0vf9_if"@,
        flavor::host_interface(11) == "pf0vf10_if"@,
        flavor::host_interface(12) == "pf0vf11_if"@,
        flavor::host_interface(13) == "pf0vf12_if"@,
        flavor::host_interface(14) == "pf0vf13_if"@,
        flavor::host_interface(15) == "pf0vf14_if"@,
        flavor::host_interface(16) == "pf0vf15_if"@,
{
    reveal_strlit("pf0vf");
    reveal_strlit("_if");
    reveal_with_fuel(text::decimal, 2);
    reveal_strlit("pf0vf0_if");
    reveal_strlit("pf0vf1_if");
    reveal_strlit("pf0vf2_if");
    reveal_strlit("pf0vf3_if");
    reveal_strlit("pf0vf4_if");
    reveal_strlit("pf0vf5_if");
    reveal_strlit("pf0vf6_if");
    reveal_strlit("pf0vf7_if");
    reveal_strlit("pf0vf8_if");
    reveal_strlit("pf0vf9_if");
    reveal_strlit("pf0vf10_if");
    reveal_strlit("pf0vf11_if");
    reveal_strlit("pf0vf12_if");
    reveal_strlit("pf0vf13_if");
    reveal_strlit("pf0vf14_if");
    reveal_strlit("pf0vf15_if");
    assert(flavor::host_interface(1) =~= "pf0vf0_if"@);
    assert(flavor::host_interface(2) =~= "pf0vf1_if"@);
    assert(flavor::host_interface(3) =~= "pf0vf2_if"@);
    assert(flavor::host_interface(4) =~= "pf0vf3_if"@);
    assert(flavor::host_interface(5) =~= "pf0vf4_if"@);
    assert(flavor::host_interface(6) =~= "pf0vf5_if"@);
    assert(flavor::host_interface(7) =~= "pf0vf6_if"@);
    assert(flavor::host_interface(8) =~= "pf0vf7_if"@);
    assert(flavor::host_interface(9) =~= "pf0vf8_if"@);
    assert(flavor::host_interface(10) =~= "pf0vf9_if"@);
    assert(flavor::host_interface(11) =~= "pf0vf10_if"@);
    assert(flavor::host_interface(12) =~= "pf0vf11_if"@);
    assert(flavor::host_interface(13) =~= "pf0vf12_if"@);
    assert(flavor::host_interface(14) =~= "pf0vf13_if"@);
    assert(flavor::host_interface(15) =~= "pf0vf14_if"@);
    assert(flavor::host_interface(16) =~= "pf0vf15_if"@);
}

/// The default flavor carries the whole script that sets Open vSwitch up, the firmware parameters
/// for every device, and the parameters of the installation, whatever the proxy is. Its mode is
/// zero-trust, and it carries no other section.
pub proof fn law_default_spec(p: Option<DpfProxyDetailsView>)
    ensures
        flavor::default_spec(p).ovs matches Some(ovs) && ovs.raw_config_script == Some(
            "_ovs-vsctl() {\n   ovs-vsctl --no-wait --timeout 15 \"$@\"\n }\n\
            _ovs-vsctl set Open_vSwitch . other_config:doca-init=true\n\
            _ovs-vsctl set Open_vSwitch . other_config:dpdk-max-memzones=50000\n\
            _ovs-vsctl set Open_vSwitch . other_config:hw-offload=true\n\
            _ovs-vsctl set Open_vSwitch . other_config:pmd-quiet-idle=true\n\
            _ovs-vsctl set Open_vSwitch . other_config:max-idle=20000\n\
            _ovs-vsctl set Open_vSwitch . other_config:max-revalidator=5000\n\
            _ovs-vsctl set Open_vSwitch . other_config:ctl-pipe-size=1024\n\
            _ovs-vsctl --if-exists del-br ovsbr1\n\
            _ovs-vsctl --if-exists del-br ovsbr2\n\
            _ovs-vsctl --may-exist add-br br-sfc\n\
            _ovs-vsctl set bridge br-sfc datapath_type=netdev\n\
            _ovs-vsctl set bridge br-sfc fail_mode=secure\n\
            _ovs-vsctl --may-exist add-port br-sfc p0\n\
            _ovs-vsctl set Interface p0 type=dpdk\n\
            _ovs-vsctl set Interface p0 mtu_request=9216\n\
            _ovs-vsctl set Port p0 external_ids:dpf-type=physical\n"@,
        ),
        flavor::default_spec(p).ovs == Some(
            DpuFlavorOvsView { raw_config_script: Some(flavor::OVS_DEFAULTS@) },
        ),
        flavor::default_spec(p).nvconfig == Some(seq![flavor::default_nvconfig()]),
        flavor::default_spec(p).nvconfig matches Some(list) && list.len() == 1 && list[0].device
            == Some(DpuFlavorNvconfigDevice::KopiumVariant0) && list[0].parameters == Some(
            seq![
                "PF_BAR2_ENABLE=0"@,
                "PER_PF_NUM_SF=1"@,
                "PF_TOTAL_SF=30"@,
                "PF_SF_BAR_SIZE=10"@,
                "NUM_PF_MSIX_VALID=0"@,
                "PF_NUM_PF_MSIX_VALID=1"@,
                "PF_NUM_PF_MSIX=228"@,
                "INTERNAL_CPU_MODEL=1"@,
                "INTERNAL_CPU_OFFLOAD_ENGINE=0"@,
                "SRIOV_EN=1"@,
                "LAG_RESOURCE_ALLOCATION=1"@,
                "NUM_OF_VFS=16"@,
                "HIDE_PORT2_PF=True"@,
                "NUM_OF_PF=1"@,
                "LINK_TYPE_P1=2"@,
                "LINK_TYPE_P2=2"@,
            ],
        ),
        flavor::default_spec(p).bfcfg_parameters == Some(
            seq!["UPDATE_ATF_UEFI=yes"@, "UPDATE_DPU_OS=yes"@, "WITH_NIC_FW_UPDATE=yes"@],
        ),
        flavor::default_spec(p).dpu_mode == Some(DpuFlavorDpuMode::ZeroTrust),
        flavor::default_spec(p).config_files == Some(flavor::config_files(p)),
        flavor::default_spec(p).containerd_config is None,
        flavor::default_spec(p).dpu_resources is None,
        flavor::default_spec(p).grub is None,
        flavor::default_spec(p).host_network_interface_configs is None,
        flavor::default_spec(p).sysctl is None,
        flavor::default_spec(p).system_reserved_resources is None,
{
}

/// The name of a flavor is the whole prefix, one hyphen, and the first 8 bytes, in lower-case
/// hexadecimal digits, of the SHA-256 digest of the spec's document in UTF-8.
pub proof fn law_flavor_name(spec: DpuFlavorSpecView, prefix: Seq<char>)
    requires
        digest::sha256_digest(utf8::encode_utf8(json::compact(spec.tree()))).len() == 32,
    ensures
        flavor::flavor_name(spec, prefix).len() == prefix.len() + 17,
        flavor::flavor_name(spec, prefix).subrange(0, prefix.len() as int) == prefix,
        flavor::flavor_name(spec, prefix)[prefix.len() as int] == '-',
        forall|k: int|
            0 <= k < 8 ==> {
                let byte = #[trigger] digest::sha256_digest(
                    utf8::encode_utf8(json::compact(spec.tree())),
                )[k];
                &&& flavor::flavor_name(spec, prefix)[prefix.len() + 1 + 2 * k]
                    == "0123456789abcdef"@[byte as int / 16]
                &&& flavor::flavor_name(spec, prefix)[prefix.len() + 2 + 2 * k]
                    == "0123456789abcdef"@[byte as int % 16]
            },
{
    digest::law_digest_name(
        prefix,
        digest::sha256_digest(utf8::encode_utf8(json::compact(spec.tree()))),
    );
}

/// Under the default prefix every name starts with `dpu-flavor` and a hyphen.
pub proof fn law_default_prefix(spec: DpuFlavorSpecView)
    ensures
        flavor::flavor_name(spec, flavor::DEFAULT_FLAVOR_NAME@).subrange(0, 11) == "dpu-flavor-"@,
{
    reveal_strlit("dpu-flavor");
    reveal_strlit("-");
    reveal_strlit("dpu-flavor-");
    assert(flavor::flavor_name(spec, flavor::DEFAULT_FLAVOR_NAME@).subrange(0, 11)
        =~= "dpu-flavor-"@);
}

/// The characters of a proxy's entries are those of what it holds.
pub(crate) proof fn lemma_proxy_characters(proxy: DpfProxyDetails)
    ensures
        (exists|k: int, i: int|
            {
                &&& 0 <= k < proxy.no_proxy@.len()
                &&& 0 <= i < text::trimmed(proxy.no_proxy@[k]@).len()
                &&& {
                    let c = #[trigger] text::trimmed(proxy.no_proxy@[k]@)[i];
                    c == '"' || (c as int) <= 0x1f || c as int == 0x7f
                }
            }) <==> (exists|k: int, i: int|
            {
                &&& 0 <= k < proxy.deep_view().no_proxy.len()
                &&& 0 <= i < text::trimmed(proxy.deep_view().no_proxy[k]).len()
                &&& {
                    let c = #[trigger] text::trimmed(proxy.deep_view().no_proxy[k])[i];
                    c == '"' || (c as int) <= 0x1f || c as int == 0x7f
                }
            }),
{
    let raw = proxy.no_proxy@;
    let held = proxy.deep_view().no_proxy;
    assert forall|k: int, i: int| 0 <= k < raw.len() implies #[trigger] text::trimmed(raw[k]@)[i]
        == text::trimmed(held[k])[i] by {
        assert(held[k] == raw[k]@);
    }
    assert forall|k: int, i: int| 0 <= k < raw.len() implies #[trigger] text::trimmed(held[k])[i]
        == text::trimmed(raw[k]@)[i] by {
        assert(held[k] == raw[k]@);
    }
    assert(forall|k: int| 0 <= k < raw.len() ==> #[trigger] held[k] == raw[k]@);
}

} // verus!
