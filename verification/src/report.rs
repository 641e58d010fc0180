//! Rendering the final account snapshot: one header line, then one line
//! per client — `client,available,held,total,locked` — in order of each
//! client's first appearance.

use crate::ledger::Account;
use crate::ledger::State;
use crate::ledger::account_or_new;
use crate::ledger::account_wf;
use crate::numfmt::digits_of;
use crate::numfmt::render_units;
use crate::numfmt::spec_digits;
use crate::numfmt::spec_render_units;
use vstd::prelude::*;

verus! {

/// `true` or `false`, as bytes.
pub open spec fn spec_bool_bytes(b: bool) -> Seq<u8> {
    if b {
        seq![116u8, 114u8, 117u8, 101u8]
    } else {
        seq![102u8, 97u8, 108u8, 115u8, 101u8]
    }
}

/// One snapshot line: client id, available, held, total and locked flag,
/// comma-separated and newline-terminated.
pub open spec fn spec_row(c: u16, a: Account) -> Seq<u8> {
    spec_digits(c as nat) + seq![44u8] + spec_render_units(a.available as int) + seq![44u8]
        + spec_render_units(a.held as int) + seq![44u8] + spec_render_units(
        a.available + a.held,
    ) + seq![44u8] + spec_bool_bytes(a.locked) + seq![10u8]
}

/// The header line `client,available,held,total,locked`.
pub open spec fn spec_header() -> Seq<u8> {
    seq![
        99u8, 108u8, 105u8, 101u8, 110u8, 116u8, 44u8, 97u8, 118u8, 97u8, 105u8, 108u8, 97u8,
        98u8, 108u8, 101u8, 44u8, 104u8, 101u8, 108u8, 100u8, 44u8, 116u8, 111u8, 116u8, 97u8,
        108u8, 44u8, 108u8, 111u8, 99u8, 107u8, 101u8, 100u8, 10u8,
    ]
}

/// The snapshot lines for `clients`, in order.
pub open spec fn spec_rows(clients: Seq<u16>, accs: Map<u16, Account>) -> Seq<u8>
    decreases clients.len(),
{
    if clients.len() == 0 {
        Seq::<u8>::empty()
    } else {
        spec_rows(clients.drop_last(), accs) + spec_row(
            clients.last(),
            account_or_new(accs, clients.last()),
        )
    }
}

/// The whole report: header plus one line per client.
pub open spec fn spec_output(clients: Seq<u16>, accs: Map<u16, Account>) -> Seq<u8> {
    spec_header() + spec_rows(clients, accs)
}

/// Render a boolean flag.
fn bool_bytes(b: bool) -> (r: Vec<u8>)
    ensures
        r@ == spec_bool_bytes(b),
{
    let mut v: Vec<u8> = Vec::new();
    if b {
        v.push(116);
        v.push(114);
        v.push(117);
        v.push(101);
    } else {
        v.push(102);
        v.push(97);
        v.push(108);
        v.push(115);
        v.push(101);
    }
    proof {
        assert(v@ =~= spec_bool_bytes(b));
    }
    v
}

/// Render one client's snapshot line.
pub fn render_row(client: u16, a: &Account) -> (r: Vec<u8>)
    requires
        account_wf(*a),
    ensures
        r@ == spec_row(client, *a),
{
    let mut out = digits_of(client as u64);
    out.push(44);
    let mut av = render_units(a.available);
    out.append(&mut av);
    out.push(44);
    let mut hd = render_units(a.held);
    out.append(&mut hd);
    out.push(44);
    let total: i64 = ((a.available as i128) + (a.held as i128)) as i64;
    let mut tt = render_units(total);
    out.append(&mut tt);
    out.push(44);
    let mut lk = bool_bytes(a.locked);
    out.append(&mut lk);
    out.push(10);
    proof {
        assert(out@ =~= spec_row(client, *a));
    }
    out
}

/// Render the header line.
fn render_header() -> (r: Vec<u8>)
    ensures
        r@ == spec_header(),
{
    let mut v: Vec<u8> = Vec::new();
    v.push(99);
    v.push(108);
    v.push(105);
    v.push(101);
    v.push(110);
    v.push(116);
    v.push(44);
    v.push(97);
    v.push(118);
    v.push(97);
    v.push(105);
    v.push(108);
    v.push(97);
    v.push(98);
    v.push(108);
    v.push(101);
    v.push(44);
    v.push(104);
    v.push(101);
    v.push(108);
    v.push(100);
    v.push(44);
    v.push(116);
    v.push(111);
    v.push(116);
    v.push(97);
    v.push(108);
    v.push(44);
    v.push(108);
    v.push(111);
    v.push(99);
    v.push(107);
    v.push(101);
    v.push(100);
    v.push(10);
    proof {
        assert(v@ =~= spec_header());
    }
    v
}

/// Render the final snapshot of every account, header first, one line
/// per client in order of first appearance.
pub fn render_output(st: &State) -> (r: Vec<u8>)
    requires
        st.wf(),
    ensures
        r@ == spec_output(st.clients@, st.accounts@),
{
    let mut out = render_header();
    let n = st.clients.len();
    let mut idx: usize = 0;
    while idx < n
        invariant
            st.wf(),
            idx <= n == st.clients@.len(),
            out@ == spec_header() + spec_rows(st.clients@.take(idx as int), st.accounts@),
        decreases n - idx,
    {
        let c = st.clients[idx];
        let a = match st.accounts.get(&c) {
            Option::Some(x) => *x,
            Option::None => Account { available: 0, held: 0, locked: false },
        };
        proof {
            assert(a == account_or_new(st.accounts@, c));
            if st.accounts@.contains_key(c) {
                assert(account_wf(st.accounts@[c]));
            }
        }
        let mut row = render_row(c, &a);
        out.append(&mut row);
        proof {
            let pre = st.clients@.take(idx as int);
            let post = st.clients@.take(idx as int + 1);
            assert(post.drop_last() =~= pre);
            assert(post.last() == c);
            assert(out@ == spec_header() + spec_rows(post, st.accounts@));
        }
        idx += 1;
    }
    proof {
        assert(st.clients@.take(n as int) =~= st.clients@);
    }
    out
}

} // verus!
