//! The proxy of a DPU: which settings are accepted, and the systemd drop-in they become.

use crate::error::DpfError;
use crate::laws;
use crate::ordering;
use crate::ordering::sort_distinct;
use crate::text;
use crate::text::{join, trim};
use crate::types::{DpfProxyDetails, DpfProxyDetailsView};
use vstd::prelude::*;
use vstd::string::*;

verus! {

/// A character that would break a systemd `Environment="..."` line: a double quote, or an ASCII
/// control character, a line end among them.
pub open spec fn is_forbidden(c: char) -> bool {
    c == '"' || c as int <= 0x1f || c as int == 0x7f
}

/// A string that can stand inside a systemd `Environment="..."` line.
pub open spec fn is_safe(s: Seq<char>) -> bool {
    forall|i: int| 0 <= i < s.len() ==> !is_forbidden(#[trigger] s[i])
}

/// The message with which a setting is refused.
pub open spec fn rejection(field: Seq<char>) -> Seq<char> {
    "proxy "@ + field
        + " contains characters that are not allowed in a systemd Environment= value (quotes, newlines, or control characters)"@
}

/// Rejects proxy strings containing characters that would break a systemd `Environment="..."` line:
/// double-quotes (break the quoting), newlines / carriage returns (break the unit-file line), and
/// any other ASCII control character (< 0x20 or DEL 0x7f).
pub fn validate_proxy_string(value: &str, field: &str) -> (result: Result<(), DpfError>)
    ensures
        result is Ok <==> is_safe(value@),
        result matches Err(error) ==> error.is_config_error(rejection(field@)),
        result is Err <==> exists|i: int|
            {
                &&& 0 <= i < value@.len()
                &&& {
                    let c = #[trigger] value@[i];
                    c == '"' || (c as int) <= 0x1f || c as int == 0x7f
                }
            },
        result matches Err(error) ==> error matches DpfError::ConfigError(message) && message@
            == "proxy "@ + field@
            + " contains characters that are not allowed in a systemd Environment= value (quotes, newlines, or control characters)"@,
{
    for c in rest: value.chars()
        invariant
            rest.seq() == value@,
            forall|i: int| 0 <= i < rest.index() ==> !is_forbidden(#[trigger] value@[i]),
    {
        if c == '"' || c < '\x20' || c == '\x7f' {
            assert(is_forbidden(value@[rest.index()]));
            let mut message: String = "proxy ".to_owned();
            message.append(field);
            message.append(
                " contains characters that are not allowed in a systemd Environment= value (quotes, newlines, or control characters)",
            );
            return Err(DpfError::ConfigError(message));
        }
    }
    Ok(())
}

/// The entries that count: trimmed, and without those that are blank.
pub open spec fn effective(no_proxy: Seq<Seq<char>>) -> Seq<Seq<char>>
    decreases no_proxy.len(),
{
    if no_proxy.len() == 0 {
        Seq::empty()
    } else {
        let before = effective(no_proxy.drop_last());
        let entry = text::trimmed(no_proxy.last());
        if entry.len() == 0 {
            before
        } else {
            before.push(entry)
        }
    }
}

/// Every string of the list is safe.
pub open spec fn all_safe(list: Seq<Seq<char>>) -> bool {
    forall|i: int| 0 <= i < list.len() ==> is_safe(#[trigger] list[i])
}

/// The message with which a proxy is refused, if it is.
pub open spec fn refusal(proxy: DpfProxyDetailsView) -> Option<Seq<char>> {
    if !is_safe(proxy.https_proxy) {
        Some(rejection("https_proxy"@))
    } else if !all_safe(effective(proxy.no_proxy)) {
        Some(rejection("no_proxy entry"@))
    } else {
        None
    }
}

/// A line that sets an environment variable.
pub open spec fn environment_line(variable: Seq<char>, value: Seq<char>) -> Seq<char> {
    "Environment=\""@ + variable + "="@ + value + "\"\n"@
}

/// The value of the `NO_PROXY` variables: the entries, sorted and without duplicates.
pub open spec fn no_proxy_value(no_proxy: Seq<Seq<char>>) -> Seq<char> {
    text::joined(ordering::sorted_distinct(effective(no_proxy)), ","@)
}

/// The drop-in that makes containerd use the proxy. Where no entry counts, the `NO_PROXY`
/// variables are not set.
pub open spec fn drop_in(proxy: DpfProxyDetailsView) -> Seq<char> {
    let service = "[Service]\n"@ + environment_line("HTTPS_PROXY"@, proxy.https_proxy)
        + environment_line("https_proxy"@, proxy.https_proxy);
    if effective(proxy.no_proxy).len() == 0 {
        service
    } else {
        service + environment_line("NO_PROXY"@, no_proxy_value(proxy.no_proxy))
            + environment_line("no_proxy"@, no_proxy_value(proxy.no_proxy))
    }
}

/// Trims the entries and leaves the blank ones out.
fn effective_entries(no_proxy: &Vec<String>) -> (entries: Vec<&str>)
    ensures
        entries.deep_view() == effective(no_proxy.deep_view()),
{
    let ghost all = no_proxy.deep_view();
    let mut entries: Vec<&str> = Vec::new();
    let mut n: usize = 0;
    assert(entries.deep_view() =~= effective(all.take(0)));
    while n < no_proxy.len()
        invariant
            n <= no_proxy.len(),
            all == no_proxy.deep_view(),
            entries.deep_view() == effective(all.take(n as int)),
        decreases no_proxy.len() - n,
    {
        let ghost before = entries.deep_view();
        let entry: &str = trim(no_proxy[n].as_str());
        assert(all.take(n + 1).drop_last() =~= all.take(n as int));
        if !entry.is_empty() {
            entries.push(entry);
            assert(entries.deep_view() =~= before.push(entry@));
        }
        n = n + 1;
    }
    assert(all.take(n as int) =~= all);
    entries
}

/// Appends a line that sets an environment variable.
fn append_environment(raw: &mut String, variable: &str, value: &str)
    ensures
        final(raw)@ == old(raw)@ + environment_line(variable@, value@),
{
    raw.append("Environment=\"");
    raw.append(variable);
    raw.append("=");
    raw.append(value);
    raw.append("\"\n");
    assert(raw@ =~= old(raw)@ + environment_line(variable@, value@));
}

/// Builds the drop-in that makes containerd use the proxy, or refuses the proxy.
pub fn proxy_drop_in(proxy: &DpfProxyDetails) -> (result: Result<String, DpfError>)
    ensures
        match refusal(proxy.deep_view()) {
            Some(message) => result matches Err(error) && error.is_config_error(message),
            None => result matches Ok(raw) && raw@ == drop_in(proxy.deep_view()),
        },
        result is Err <==> {
            ||| exists|i: int|
                {
                    &&& 0 <= i < proxy.https_proxy@.len()
                    &&& {
                        let c = #[trigger] proxy.https_proxy@[i];
                        c == '"' || (c as int) <= 0x1f || c as int == 0x7f
                    }
                }
            ||| exists|k: int, i: int|
                {
                    &&& 0 <= k < proxy.no_proxy@.len()
                    &&& 0 <= i < text::trimmed(proxy.no_proxy@[k]@).len()
                    &&& {
                        let c = #[trigger] text::trimmed(proxy.no_proxy@[k]@)[i];
                        c == '"' || (c as int) <= 0x1f || c as int == 0x7f
                    }
                }
        },
        result matches Err(error) ==> error is ConfigError,
{
    proof {
        laws::law_refused_for_characters(proxy.deep_view());
        laws::lemma_proxy_characters(*proxy);
    }
    match validate_proxy_string(proxy.https_proxy.as_str(), "https_proxy") {
        Ok(_) => {},
        Err(error) => {
            return Err(error);
        },
    }
    let mut raw: String = "[Service]\n".to_owned();
    append_environment(&mut raw, "HTTPS_PROXY", proxy.https_proxy.as_str());
    append_environment(&mut raw, "https_proxy", proxy.https_proxy.as_str());
    let entries: Vec<&str> = effective_entries(&proxy.no_proxy);
    let ghost counted = entries.deep_view();
    if !entries.is_empty() {
        let mut n: usize = 0;
        while n < entries.len()
            invariant
                n <= entries.len(),
                counted == entries.deep_view(),
                counted == effective(proxy.no_proxy.deep_view()),
                is_safe(proxy.https_proxy@),
                forall|i: int| 0 <= i < n ==> is_safe(#[trigger] counted[i]),
            decreases entries.len() - n,
        {
            match validate_proxy_string(entries[n], "no_proxy entry") {
                Ok(_) => {},
                Err(error) => {
                    assert(!is_safe(counted[n as int]));
                    proof {
                        laws::law_refused_for_characters(proxy.deep_view());
                        laws::lemma_proxy_characters(*proxy);
                    }
                    return Err(error);
                },
            }
            n = n + 1;
        }
        let no_proxy: String = join(&sort_distinct(&entries), ",");
        append_environment(&mut raw, "NO_PROXY", no_proxy.as_str());
        append_environment(&mut raw, "no_proxy", no_proxy.as_str());
    }
    Ok(raw)
}

} // verus!
