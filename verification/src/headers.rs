//! Header filter: which headers cross the gateway, in either direction.
//!
//! For each operation there is one fixed list of names per direction. A
//! header whose name is on the list passes, under the list's spelling of the
//! name; every other header is dropped. Names are compared without regard to
//! ASCII case. There is no way to let everything through.
//!
//! On the way to the backend one header of each listed name passes: the
//! first. On the way back a download passes every header of a listed name,
//! an upload the first of each. A header passes only with a value that is
//! text; an upload alone sends values on as the bytes they are.
//!
//! `Content-Length` is on no request list: the transport works it out from
//! the body that it sends.

use vstd::prelude::*;
use vstd::string::*;
use vstd::utf8::*;
use crate::operation::Operation;
use crate::search::{
    first_match, lemma_first_match_at, lemma_first_match_found, lemma_first_match_none,
};

verus! {

// The names on the lists, as the lists spell them.

pub const IF_NONE_MATCH: &'static str = "if-none-match";

pub const IF_MATCH: &'static str = "if-match";

pub const RANGE: &'static str = "range";

pub const CONTENT_TYPE: &'static str = "content-type";

pub const CONTENT_LENGTH: &'static str = "content-length";

pub const ACCEPT_RANGES: &'static str = "accept-ranges";

pub const CONTENT_DISPOSITION: &'static str = "content-disposition";

pub const CONTENT_RANGE: &'static str = "content-range";

pub const ETAG: &'static str = "etag";

/// One header: its name, and its value as the bytes on the wire.
#[derive(Clone, Debug, PartialEq, Eq)]
pub struct Header {
    pub name: String,
    pub value: Vec<u8>,
}

/// A header as the rules see it: the UTF-8 form of its name, and its value.
pub struct HeaderModel {
    pub name: Seq<u8>,
    pub value: Seq<u8>,
}

impl View for Header {
    type V = HeaderModel;

    open spec fn view(&self) -> HeaderModel {
        HeaderModel { name: encode_utf8(self.name@), value: self.value@ }
    }
}

/// The headers of a list, each as the rules see it.
pub open spec fn models(headers: Seq<Header>) -> Seq<HeaderModel> {
    headers.map_values(|h: Header| h@)
}

/// A header that may be missing, as the rules see it.
pub open spec fn model_of(header: Option<Header>) -> Option<HeaderModel> {
    match header {
        Some(h) => Some(h@),
        None => None,
    }
}

/// The names of a list, each in its UTF-8 form.
pub open spec fn name_bytes(names: Seq<&'static str>) -> Seq<Seq<u8>> {
    names.map_values(|n: &'static str| n.spec_bytes())
}

/// How the filter picks among several headers of one name.
#[derive(Clone, Copy, Debug, PartialEq, Eq, Structural)]
pub enum Pick {
    /// Only the first header of each listed name, in the order of the list.
    First,
    /// Every header with a listed name, in the order of the source.
    Every,
}

/// Which values the filter lets through.
#[derive(Clone, Copy, Debug, PartialEq, Eq, Structural)]
pub enum ValueRule {
    /// Tab and the visible ASCII characters.
    Text,
    /// Any byte that may stand in a header value: all but the control
    /// characters other than tab.
    Opaque,
}

/// The lower-case form of an ASCII letter; any other byte is itself.
pub open spec fn lower(b: u8) -> u8 {
    if 0x41 <= b <= 0x5a {
        (b + 0x20) as u8
    } else {
        b
    }
}

/// Two names are the same but for the case of ASCII letters.
pub open spec fn same_name(a: Seq<u8>, b: Seq<u8>) -> bool {
    &&& a.len() == b.len()
    &&& forall|i: int| 0 <= i < a.len() ==> lower(#[trigger] a[i]) == lower(b[i])
}

/// Tab or a visible ASCII character.
pub open spec fn is_text_byte(b: u8) -> bool {
    b == 0x09 || (0x20 <= b < 0x7f)
}

/// Any byte but a control character other than tab.
pub open spec fn is_opaque_byte(b: u8) -> bool {
    b == 0x09 || (0x20 <= b && b != 0x7f)
}

/// Whether a value is one that `rule` lets through.
pub open spec fn value_passes(rule: ValueRule, value: Seq<u8>) -> bool {
    match rule {
        ValueRule::Text => forall|i: int| 0 <= i < value.len() ==> is_text_byte(#[trigger] value[i]),
        ValueRule::Opaque => forall|i: int|
            0 <= i < value.len() ==> is_opaque_byte(#[trigger] value[i]),
    }
}

/// The first header of `headers` that goes by `name`.
pub open spec fn first_named(headers: Seq<HeaderModel>, name: Seq<u8>) -> Option<HeaderModel> {
    first_match(headers, |h: HeaderModel| same_name(h.name, name))
}

/// The list's spelling of `name`: the first listed name that is the same.
pub open spec fn listed_as(names: Seq<Seq<u8>>, name: Seq<u8>) -> Option<Seq<u8>> {
    first_match(names, |n: Seq<u8>| same_name(n, name))
}

/// What one listed name contributes under `Pick::First`.
pub open spec fn pick_first(headers: Seq<HeaderModel>, name: Seq<u8>, rule: ValueRule) -> Seq<
    HeaderModel,
> {
    match first_named(headers, name) {
        Some(h) => if value_passes(rule, h.value) {
            seq![HeaderModel { name, value: h.value }]
        } else {
            Seq::empty()
        },
        None => Seq::empty(),
    }
}

/// For each listed name in turn, the first header of that name, if its value passes.
pub open spec fn select_first(names: Seq<Seq<u8>>, headers: Seq<HeaderModel>, rule: ValueRule) -> Seq<
    HeaderModel,
>
    decreases names.len(),
{
    if names.len() == 0 {
        Seq::empty()
    } else {
        select_first(names.drop_last(), headers, rule) + pick_first(headers, names.last(), rule)
    }
}

/// What one header of the source contributes under `Pick::Every`.
pub open spec fn pick_listed(names: Seq<Seq<u8>>, header: HeaderModel, rule: ValueRule) -> Seq<
    HeaderModel,
> {
    match listed_as(names, header.name) {
        Some(name) => if value_passes(rule, header.value) {
            seq![HeaderModel { name, value: header.value }]
        } else {
            Seq::empty()
        },
        None => Seq::empty(),
    }
}

/// Every header of the source, in turn, whose name is listed and whose value passes.
pub open spec fn select_every(names: Seq<Seq<u8>>, headers: Seq<HeaderModel>, rule: ValueRule) -> Seq<
    HeaderModel,
>
    decreases headers.len(),
{
    if headers.len() == 0 {
        Seq::empty()
    } else {
        select_every(names, headers.drop_last(), rule) + pick_listed(names, headers.last(), rule)
    }
}

/// The headers that pass, picked as `pick` says.
pub open spec fn select(
    pick: Pick,
    names: Seq<Seq<u8>>,
    headers: Seq<HeaderModel>,
    rule: ValueRule,
) -> Seq<HeaderModel> {
    match pick {
        Pick::First => select_first(names, headers, rule),
        Pick::Every => select_every(names, headers, rule),
    }
}

/// The names that an operation passes on to the backend.
pub open spec fn request_allow_list(op: Operation) -> Seq<Seq<u8>> {
    match op {
        Operation::Get => seq![IF_NONE_MATCH.spec_bytes(), RANGE.spec_bytes()],
        Operation::Head => seq![IF_NONE_MATCH.spec_bytes()],
        Operation::Put => seq![
            IF_MATCH.spec_bytes(),
            IF_NONE_MATCH.spec_bytes(),
            CONTENT_TYPE.spec_bytes(),
        ],
        Operation::Ping | Operation::List | Operation::Delete => Seq::empty(),
    }
}

/// The names that an operation passes back to the caller.
pub open spec fn response_allow_list(op: Operation) -> Seq<Seq<u8>> {
    match op {
        Operation::Get => seq![
            CONTENT_TYPE.spec_bytes(),
            CONTENT_LENGTH.spec_bytes(),
            ACCEPT_RANGES.spec_bytes(),
            CONTENT_DISPOSITION.spec_bytes(),
            CONTENT_RANGE.spec_bytes(),
            ETAG.spec_bytes(),
        ],
        Operation::Head => seq![
            CONTENT_TYPE.spec_bytes(),
            CONTENT_LENGTH.spec_bytes(),
            ACCEPT_RANGES.spec_bytes(),
            CONTENT_DISPOSITION.spec_bytes(),
            ETAG.spec_bytes(),
        ],
        Operation::Put => seq![ETAG.spec_bytes(), CONTENT_TYPE.spec_bytes()],
        Operation::Ping | Operation::List | Operation::Delete => Seq::empty(),
    }
}

/// The two ways across the gateway.
#[derive(Clone, Copy, Debug, PartialEq, Eq, Structural)]
pub enum Direction {
    /// From the caller to the backend.
    Request,
    /// From the backend to the caller.
    Response,
}

/// The allow-list of an operation in one direction.
pub open spec fn allow_list(op: Operation, direction: Direction) -> Seq<Seq<u8>> {
    match direction {
        Direction::Request => request_allow_list(op),
        Direction::Response => response_allow_list(op),
    }
}

/// `name` is on the list, in some spelling.
pub open spec fn is_listed(names: Seq<Seq<u8>>, name: Seq<u8>) -> bool {
    exists|i: int| 0 <= i < names.len() && same_name(#[trigger] names[i], name)
}

/// Whether a header of this name may cross in this direction at all.
pub open spec fn forwards(op: Operation, direction: Direction, name: Seq<u8>) -> bool {
    is_listed(allow_list(op, direction), name)
}

/// An upload passes values on as bytes; the other operations pass text only.
pub open spec fn request_value_rule(op: Operation) -> ValueRule {
    if op == Operation::Put {
        ValueRule::Opaque
    } else {
        ValueRule::Text
    }
}

/// A download hands back every listed header that the backend sent; the
/// other operations hand back one header of each name.
pub open spec fn response_pick(op: Operation) -> Pick {
    if op == Operation::Get || op == Operation::Head {
        Pick::Every
    } else {
        Pick::First
    }
}

/// The headers that go to the backend, out of those that came in.
pub open spec fn filter_request(op: Operation, inbound: Seq<HeaderModel>) -> Seq<HeaderModel> {
    select_first(request_allow_list(op), inbound, request_value_rule(op))
}

/// The headers that go back to the caller, out of those that the backend sent.
pub open spec fn filter_response(op: Operation, upstream: Seq<HeaderModel>) -> Seq<HeaderModel> {
    select(response_pick(op), response_allow_list(op), upstream, ValueRule::Text)
}

/// Allow-listing, first form: whatever the source holds, every header that
/// `select_first` lets through bears a name of the list, spelled as listed,
/// and the value of a source header of that name.
pub proof fn lemma_select_first_listed(
    names: Seq<Seq<u8>>,
    headers: Seq<HeaderModel>,
    rule: ValueRule,
)
    ensures
        forall|i: int|
            0 <= i < select_first(names, headers, rule).len() ==> {
                let out = #[trigger] select_first(names, headers, rule)[i];
                &&& names.contains(out.name)
                &&& value_passes(rule, out.value)
                &&& exists|j: int|
                    0 <= j < headers.len() && same_name((#[trigger] headers[j]).name, out.name)
                        && headers[j].value == out.value
            },
    decreases names.len(),
{
    if names.len() > 0 {
        let init = names.drop_last();
        let name = names.last();
        lemma_select_first_listed(init, headers, rule);
        let before = select_first(init, headers, rule);
        let all = select_first(names, headers, rule);
        lemma_first_match_found(headers, |h: HeaderModel| same_name(h.name, name));
        assert forall|i: int| 0 <= i < all.len() implies {
            let out = #[trigger] all[i];
            &&& names.contains(out.name)
            &&& value_passes(rule, out.value)
            &&& exists|j: int|
                0 <= j < headers.len() && same_name((#[trigger] headers[j]).name, out.name)
                    && headers[j].value == out.value
        } by {
            if i < before.len() {
                let k = choose|k: int| 0 <= k < init.len() && init[k] == before[i].name;
                assert(names[k] == all[i].name);
            } else {
                let h = first_named(headers, name)->0;
                let j = choose|j: int| 0 <= j < headers.len() && headers[j] == h;
                assert(same_name(headers[j].name, all[i].name));
            }
        }
    }
}

/// Allow-listing, second form: the same of `select_every`.
pub proof fn lemma_select_every_listed(
    names: Seq<Seq<u8>>,
    headers: Seq<HeaderModel>,
    rule: ValueRule,
)
    ensures
        forall|i: int|
            0 <= i < select_every(names, headers, rule).len() ==> {
                let out = #[trigger] select_every(names, headers, rule)[i];
                &&& names.contains(out.name)
                &&& value_passes(rule, out.value)
                &&& exists|j: int|
                    0 <= j < headers.len() && same_name((#[trigger] headers[j]).name, out.name)
                        && headers[j].value == out.value
            },
    decreases headers.len(),
{
    if headers.len() > 0 {
        let init = headers.drop_last();
        let last = headers.last();
        lemma_select_every_listed(names, init, rule);
        let before = select_every(names, init, rule);
        let all = select_every(names, headers, rule);
        lemma_first_match_found(names, |n: Seq<u8>| same_name(n, last.name));
        assert forall|i: int| 0 <= i < all.len() implies {
            let out = #[trigger] all[i];
            &&& names.contains(out.name)
            &&& value_passes(rule, out.value)
            &&& exists|j: int|
                0 <= j < headers.len() && same_name((#[trigger] headers[j]).name, out.name)
                    && headers[j].value == out.value
        } by {
            if i < before.len() {
                let j = choose|j: int|
                    0 <= j < init.len() && same_name((#[trigger] init[j]).name, before[i].name)
                        && init[j].value == before[i].value;
                assert(headers[j] == init[j]);
            } else {
                lemma_same_name_symmetric(all[i].name, last.name);
                assert(headers[headers.len() - 1] == last);
            }
        }
    }
}

/// Nothing listed is lost, first form: where the first header of a listed
/// name has a value that passes, `select_first` lets it through under that
/// name.
pub proof fn lemma_select_first_passes(
    names: Seq<Seq<u8>>,
    headers: Seq<HeaderModel>,
    rule: ValueRule,
    k: int,
)
    requires
        0 <= k < names.len(),
        first_named(headers, names[k]) is Some,
        value_passes(rule, first_named(headers, names[k])->0.value),
    ensures
        select_first(names, headers, rule).contains(
            HeaderModel { name: names[k], value: first_named(headers, names[k])->0.value },
        ),
    decreases names.len(),
{
    let wanted = HeaderModel { name: names[k], value: first_named(headers, names[k])->0.value };
    let before = select_first(names.drop_last(), headers, rule);
    let all = select_first(names, headers, rule);
    if k == names.len() - 1 {
        assert(all[before.len() as int] == wanted);
    } else {
        lemma_select_first_passes(names.drop_last(), headers, rule, k);
        let i = choose|i: int| 0 <= i < before.len() && before[i] == wanted;
        assert(all[i] == wanted);
    }
}

/// Nothing listed is lost, second form: every header with a listed name and
/// a value that passes gets through `select_every`, under the list's
/// spelling of its name.
pub proof fn lemma_select_every_passes(
    names: Seq<Seq<u8>>,
    headers: Seq<HeaderModel>,
    rule: ValueRule,
    j: int,
)
    requires
        0 <= j < headers.len(),
        listed_as(names, headers[j].name) is Some,
        value_passes(rule, headers[j].value),
    ensures
        select_every(names, headers, rule).contains(
            HeaderModel { name: listed_as(names, headers[j].name)->0, value: headers[j].value },
        ),
    decreases headers.len(),
{
    let wanted = HeaderModel {
        name: listed_as(names, headers[j].name)->0,
        value: headers[j].value,
    };
    let before = select_every(names, headers.drop_last(), rule);
    let all = select_every(names, headers, rule);
    if j == headers.len() - 1 {
        assert(all[before.len() as int] == wanted);
    } else {
        lemma_select_every_passes(names, headers.drop_last(), rule, j);
        let i = choose|i: int| 0 <= i < before.len() && before[i] == wanted;
        assert(all[i] == wanted);
    }
}

/// Being the same name goes both ways.
pub proof fn lemma_same_name_symmetric(a: Seq<u8>, b: Seq<u8>)
    requires
        same_name(a, b),
    ensures
        same_name(b, a),
{
    assert forall|i: int| 0 <= i < b.len() implies lower(#[trigger] b[i]) == lower(a[i]) by {
        assert(lower(a[i]) == lower(b[i]));
    }
}

/// Two names that are the same as a third are the same.
pub proof fn lemma_same_name_transitive(a: Seq<u8>, b: Seq<u8>, c: Seq<u8>)
    requires
        same_name(a, b),
        same_name(b, c),
    ensures
        same_name(a, c),
{
    assert forall|i: int| 0 <= i < a.len() implies lower(#[trigger] a[i]) == lower(c[i]) by {
        assert(lower(a[i]) == lower(b[i]));
        assert(lower(b[i]) == lower(c[i]));
    }
}

/// Length and first byte of each listed name.
proof fn lemma_listed_names()
    ensures
        IF_NONE_MATCH.spec_bytes().len() == 13 && IF_NONE_MATCH.spec_bytes()[0] == 0x69,
        IF_MATCH.spec_bytes().len() == 8,
        RANGE.spec_bytes().len() == 5,
        CONTENT_TYPE.spec_bytes().len() == 12,
        CONTENT_LENGTH.spec_bytes().len() == 14,
        ACCEPT_RANGES.spec_bytes().len() == 13 && ACCEPT_RANGES.spec_bytes()[0] == 0x61,
        CONTENT_DISPOSITION.spec_bytes().len() == 19,
        CONTENT_RANGE.spec_bytes().len() == 13 && CONTENT_RANGE.spec_bytes()[0] == 0x63,
        ETAG.spec_bytes().len() == 4,
{
    reveal_strlit("if-none-match");
    reveal_strlit("if-match");
    reveal_strlit("range");
    reveal_strlit("content-type");
    reveal_strlit("content-length");
    reveal_strlit("accept-ranges");
    reveal_strlit("content-disposition");
    reveal_strlit("content-range");
    reveal_strlit("etag");
    is_ascii_chars_encode_utf8(IF_NONE_MATCH@);
    is_ascii_chars_encode_utf8(IF_MATCH@);
    is_ascii_chars_encode_utf8(RANGE@);
    is_ascii_chars_encode_utf8(CONTENT_TYPE@);
    is_ascii_chars_encode_utf8(CONTENT_LENGTH@);
    is_ascii_chars_encode_utf8(ACCEPT_RANGES@);
    is_ascii_chars_encode_utf8(CONTENT_DISPOSITION@);
    is_ascii_chars_encode_utf8(CONTENT_RANGE@);
    is_ascii_chars_encode_utf8(ETAG@);
}

/// No list names a header twice: two entries of one list differ by more
/// than case. So the spelling under which a header passes is the one entry
/// that it matches.
pub proof fn lemma_lists_name_once(op: Operation, direction: Direction)
    ensures
        forall|i: int, j: int|
            0 <= i < j < allow_list(op, direction).len() ==> !same_name(
                #[trigger] allow_list(op, direction)[i],
                #[trigger] allow_list(op, direction)[j],
            ),
{
    lemma_listed_names();
    let names = allow_list(op, direction);
    assert forall|i: int, j: int| 0 <= i < j < names.len() implies !same_name(
        #[trigger] names[i],
        #[trigger] names[j],
    ) by {
        // Two names of one length differ in their first letter.
        if names[i].len() == names[j].len() {
            assert(lower(names[i][0]) != lower(names[j][0]));
        }
    }
}

/// Whether a header may cross depends on its name only up to case: a name
/// is never both passed and dropped.
pub proof fn lemma_forwards_ignores_case(
    op: Operation,
    direction: Direction,
    a: Seq<u8>,
    b: Seq<u8>,
)
    requires
        same_name(a, b),
    ensures
        forwards(op, direction, a) == forwards(op, direction, b),
{
    let names = allow_list(op, direction);
    if forwards(op, direction, a) {
        let i = choose|i: int| 0 <= i < names.len() && same_name(#[trigger] names[i], a);
        lemma_same_name_transitive(names[i], a, b);
    }
    if forwards(op, direction, b) {
        let i = choose|i: int| 0 <= i < names.len() && same_name(#[trigger] names[i], b);
        lemma_same_name_symmetric(a, b);
        lemma_same_name_transitive(names[i], b, a);
    }
}

/// A name that is not on an operation's request list is absent from what
/// goes to the backend, whatever came in.
pub proof fn lemma_request_drops_unlisted(op: Operation, inbound: Seq<HeaderModel>, name: Seq<u8>)
    requires
        !is_listed(request_allow_list(op), name),
    ensures
        forall|i: int|
            0 <= i < filter_request(op, inbound).len() ==> !same_name(
                (#[trigger] filter_request(op, inbound)[i]).name,
                name,
            ),
{
    let names = request_allow_list(op);
    let out = filter_request(op, inbound);
    lemma_select_first_listed(names, inbound, request_value_rule(op));
    assert forall|i: int| 0 <= i < out.len() implies !same_name((#[trigger] out[i]).name, name) by {
        let k = choose|k: int| 0 <= k < names.len() && names[k] == out[i].name;
        assert(!same_name(names[k], name));
    }
}

/// A name that is not on an operation's response list is absent from what
/// goes back to the caller, whatever the backend sent.
pub proof fn lemma_response_drops_unlisted(
    op: Operation,
    upstream: Seq<HeaderModel>,
    name: Seq<u8>,
)
    requires
        !is_listed(response_allow_list(op), name),
    ensures
        forall|i: int|
            0 <= i < filter_response(op, upstream).len() ==> !same_name(
                (#[trigger] filter_response(op, upstream)[i]).name,
                name,
            ),
{
    let names = response_allow_list(op);
    let out = filter_response(op, upstream);
    lemma_select_first_listed(names, upstream, ValueRule::Text);
    lemma_select_every_listed(names, upstream, ValueRule::Text);
    assert forall|i: int| 0 <= i < out.len() implies !same_name((#[trigger] out[i]).name, name) by {
        let k = choose|k: int| 0 <= k < names.len() && names[k] == out[i].name;
        assert(!same_name(names[k], name));
    }
}

/// The lower-case form of an ASCII letter; any other byte is itself.
fn to_lower(b: u8) -> (r: u8)
    ensures
        r == lower(b),
{
    if 0x41 <= b && b <= 0x5a {
        b + 0x20
    } else {
        b
    }
}

/// Whether two header names are the same but for the case of ASCII letters.
pub fn names_match(a: &str, b: &str) -> (r: bool)
    ensures
        r == same_name(a.spec_bytes(), b.spec_bytes()),
{
    let x = a.as_bytes();
    let y = b.as_bytes();
    if x.len() != y.len() {
        return false;
    }
    let n = x.len();
    let mut i: usize = 0;
    while i < n
        invariant
            i <= n,
            n == x@.len(),
            n == y@.len(),
            x@ == a.spec_bytes(),
            y@ == b.spec_bytes(),
            forall|j: int| 0 <= j < i ==> lower(#[trigger] x@[j]) == lower(y@[j]),
        decreases n - i,
    {
        if to_lower(x[i]) != to_lower(y[i]) {
            return false;
        }
        i += 1;
    }
    true
}

/// Whether `rule` lets a value through.
pub fn value_allowed(rule: ValueRule, value: &Vec<u8>) -> (r: bool)
    ensures
        r == value_passes(rule, value@),
{
    let n = value.len();
    let mut i: usize = 0;
    while i < n
        invariant
            i <= n,
            n == value@.len(),
            forall|j: int|
                0 <= j < i ==> (match rule {
                    ValueRule::Text => is_text_byte(#[trigger] value@[j]),
                    ValueRule::Opaque => is_opaque_byte(value@[j]),
                }),
        decreases n - i,
    {
        let b = value[i];
        let ok = match rule {
            ValueRule::Text => b == 0x09 || (0x20 <= b && b < 0x7f),
            ValueRule::Opaque => b == 0x09 || (0x20 <= b && b != 0x7f),
        };
        if !ok {
            return false;
        }
        i += 1;
    }
    true
}

/// The request list of an operation, as the names are written.
pub fn request_names(op: Operation) -> (names: Vec<&'static str>)
    ensures
        name_bytes(names@) == request_allow_list(op),
{
    let names = match op {
        Operation::Get => vec![IF_NONE_MATCH, RANGE],
        Operation::Head => vec![IF_NONE_MATCH],
        Operation::Put => vec![IF_MATCH, IF_NONE_MATCH, CONTENT_TYPE],
        Operation::Ping | Operation::List | Operation::Delete => Vec::new(),
    };
    names
}

/// The response list of an operation, as the names are written.
pub fn response_names(op: Operation) -> (names: Vec<&'static str>)
    ensures
        name_bytes(names@) == response_allow_list(op),
{
    let names = match op {
        Operation::Get => vec![
            CONTENT_TYPE,
            CONTENT_LENGTH,
            ACCEPT_RANGES,
            CONTENT_DISPOSITION,
            CONTENT_RANGE,
            ETAG,
        ],
        Operation::Head => vec![
            CONTENT_TYPE,
            CONTENT_LENGTH,
            ACCEPT_RANGES,
            CONTENT_DISPOSITION,
            ETAG,
        ],
        Operation::Put => vec![ETAG, CONTENT_TYPE],
        Operation::Ping | Operation::List | Operation::Delete => Vec::new(),
    };
    names
}

/// Which values an operation sends on to the backend.
fn value_rule_of(op: Operation) -> (rule: ValueRule)
    ensures
        rule == request_value_rule(op),
{
    match op {
        Operation::Put => ValueRule::Opaque,
        _ => ValueRule::Text,
    }
}

/// How an operation picks among the headers that the backend sent.
fn pick_of(op: Operation) -> (pick: Pick)
    ensures
        pick == response_pick(op),
{
    match op {
        Operation::Get | Operation::Head => Pick::Every,
        _ => Pick::First,
    }
}

/// Whether a header of this name may cross in this direction at all.
pub fn is_forwarded(op: Operation, direction: Direction, name: &str) -> (r: bool)
    ensures
        r == forwards(op, direction, name.spec_bytes()),
{
    let names = match direction {
        Direction::Request => request_names(op),
        Direction::Response => response_names(op),
    };
    let found = find_listed(&names, name);
    proof {
        lemma_first_match_found(name_bytes(names@), |n: Seq<u8>| same_name(n, name.spec_bytes()));
    }
    found.is_some()
}

/// Where the first header named `name` stands.
fn find_named(headers: &Vec<Header>, name: &str) -> (r: Option<usize>)
    ensures
        match r {
            Some(i) => i < headers@.len() && first_named(models(headers@), name.spec_bytes())
                == Some(headers@[i as int]@),
            None => first_named(models(headers@), name.spec_bytes()) is None,
        },
{
    let ghost p = |h: HeaderModel| same_name(h.name, name.spec_bytes());
    let n = headers.len();
    let mut i: usize = 0;
    while i < n
        invariant
            i <= n,
            n == headers@.len(),
            p == (|h: HeaderModel| same_name(h.name, name.spec_bytes())),
            forall|j: int| 0 <= j < i ==> !p(#[trigger] models(headers@)[j]),
        decreases n - i,
    {
        if names_match(headers[i].name.as_str(), name) {
            proof {
                lemma_first_match_at(models(headers@), p, i as int);
            }
            return Some(i);
        }
        i += 1;
    }
    proof {
        lemma_first_match_none(models(headers@), p);
    }
    None
}

/// Where the list's spelling of `name` stands.
fn find_listed(names: &Vec<&'static str>, name: &str) -> (r: Option<usize>)
    ensures
        match r {
            Some(i) => i < names@.len() && listed_as(name_bytes(names@), name.spec_bytes())
                == Some(names@[i as int].spec_bytes()),
            None => listed_as(name_bytes(names@), name.spec_bytes()) is None,
        },
{
    let ghost p = |n: Seq<u8>| same_name(n, name.spec_bytes());
    let n = names.len();
    let mut i: usize = 0;
    while i < n
        invariant
            i <= n,
            n == names@.len(),
            p == (|n: Seq<u8>| same_name(n, name.spec_bytes())),
            forall|j: int| 0 <= j < i ==> !p(#[trigger] name_bytes(names@)[j]),
        decreases n - i,
    {
        if names_match(names[i], name) {
            proof {
                lemma_first_match_at(name_bytes(names@), p, i as int);
            }
            return Some(i);
        }
        i += 1;
    }
    proof {
        lemma_first_match_none(name_bytes(names@), p);
    }
    None
}

/// A header named as the list spells it, with a copy of `value`.
fn relabel(name: &'static str, value: &Vec<u8>) -> (h: Header)
    ensures
        h@ == (HeaderModel { name: name.spec_bytes(), value: value@ }),
{
    Header { name: String::from_str(name), value: value.clone() }
}

/// For each listed name in turn, the first header of that name, if its
/// value passes.
fn select_first_headers(names: &Vec<&'static str>, headers: &Vec<Header>, rule: ValueRule) -> (out:
    Vec<Header>)
    ensures
        models(out@) == select_first(name_bytes(names@), models(headers@), rule),
{
    let mut out: Vec<Header> = Vec::new();
    let n = names.len();
    let mut k: usize = 0;
    while k < n
        invariant
            k <= n,
            n == names@.len(),
            models(out@) == select_first(
                name_bytes(names@).take(k as int),
                models(headers@),
                rule,
            ),
        decreases n - k,
    {
        let name = names[k];
        proof {
            let upto = name_bytes(names@).take(k + 1);
            assert(upto.drop_last() =~= name_bytes(names@).take(k as int));
        }
        match find_named(headers, name) {
            Some(i) => {
                if value_allowed(rule, &headers[i].value) {
                    out.push(relabel(name, &headers[i].value));
                }
            },
            None => {},
        }
        k += 1;
    }
    proof {
        assert(name_bytes(names@).take(n as int) =~= name_bytes(names@));
    }
    out
}

/// Every header, in turn, whose name is listed and whose value passes.
fn select_every_headers(names: &Vec<&'static str>, headers: &Vec<Header>, rule: ValueRule) -> (out:
    Vec<Header>)
    ensures
        models(out@) == select_every(name_bytes(names@), models(headers@), rule),
{
    let mut out: Vec<Header> = Vec::new();
    let n = headers.len();
    let mut k: usize = 0;
    while k < n
        invariant
            k <= n,
            n == headers@.len(),
            models(out@) == select_every(
                name_bytes(names@),
                models(headers@).take(k as int),
                rule,
            ),
        decreases n - k,
    {
        let header = &headers[k];
        proof {
            let upto = models(headers@).take(k + 1);
            assert(upto.drop_last() =~= models(headers@).take(k as int));
        }
        match find_listed(names, header.name.as_str()) {
            Some(i) => {
                if value_allowed(rule, &header.value) {
                    out.push(relabel(names[i], &header.value));
                }
            },
            None => {},
        }
        k += 1;
    }
    proof {
        assert(models(headers@).take(n as int) =~= models(headers@));
    }
    out
}

/// The headers that go to the backend, out of those that came in.
///
/// For each name on the operation's request list, in the order of the list,
/// the first inbound header of that name passes if its value does. All else
/// is dropped.
pub fn filter_request_headers(op: Operation, inbound: &Vec<Header>) -> (out: Vec<Header>)
    ensures
        models(out@) == filter_request(op, models(inbound@)),
{
    let names = request_names(op);
    select_first_headers(&names, inbound, value_rule_of(op))
}

/// The headers that go back to the caller, out of those that the backend
/// sent.
///
/// Only names on the operation's response list pass, and only with a value
/// that is text. All else is dropped.
pub fn filter_response_headers(op: Operation, upstream: &Vec<Header>) -> (out: Vec<Header>)
    ensures
        models(out@) == filter_response(op, models(upstream@)),
{
    let names = response_names(op);
    match pick_of(op) {
        Pick::First => select_first_headers(&names, upstream, ValueRule::Text),
        Pick::Every => select_every_headers(&names, upstream, ValueRule::Text),
    }
}

} // verus!
