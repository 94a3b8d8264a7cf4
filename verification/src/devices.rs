//! Discovered receivers and the `list` output.
use vstd::prelude::*;
use vstd::string::*;

use crate::text::{decimal, decimal_string};

verus! {

/// What the relay reads of a discovered AirPlay receiver.
pub struct Device {
    /// The receiver's identifier (as announced over mDNS).
    pub id: String,
    /// The receiver's human readable name.
    pub name: String,
    /// Its addresses, each as the IP address renders in text.
    pub addresses: Vec<String>,
    /// The port of its AirPlay service.
    pub port: u16,
    /// Whether it accepts audio.
    pub supports_audio: bool,
    /// Whether it speaks AirPlay 2 (else AirPlay 1).
    pub airplay2: bool,
}

/// A receiver as plain values.
#[verifier::ext_equal]
pub struct DeviceView {
    pub id: Seq<char>,
    pub name: Seq<char>,
    pub addresses: Seq<Seq<char>>,
    pub port: u16,
    pub supports_audio: bool,
    pub airplay2: bool,
}

impl View for Device {
    type V = DeviceView;

    open spec fn view(&self) -> DeviceView {
        DeviceView {
            id: self.id@,
            name: self.name@,
            addresses: self.addresses.deep_view(),
            port: self.port,
            supports_audio: self.supports_audio,
            airplay2: self.airplay2,
        }
    }
}

/// The receivers of a list as plain values.
pub open spec fn devices_view(ds: Seq<Device>) -> Seq<DeviceView> {
    ds.map_values(|d: Device| d@)
}

/// `<first address>:<port>`, or `?` for a receiver without an address.
pub open spec fn address_text(d: DeviceView) -> Seq<char> {
    if d.addresses.len() == 0 {
        "?"@
    } else {
        d.addresses[0] + ":"@ + decimal(d.port as nat)
    }
}

/// `airplay2` or `airplay1`.
pub open spec fn protocol_text(d: DeviceView) -> Seq<char> {
    if d.airplay2 {
        "airplay2"@
    } else {
        "airplay1"@
    }
}

/// One line of the listing: `<id>\t<name>\t<addr:port>\t<protocol>\n`.
pub open spec fn device_line(d: DeviceView) -> Seq<char> {
    d.id + "\t"@ + d.name + "\t"@ + address_text(d) + "\t"@ + protocol_text(d) + "\n"@
}

/// The listing of `ds`: one line per audio-capable receiver, in order.
pub open spec fn listing(ds: Seq<DeviceView>) -> Seq<char>
    decreases ds.len(),
{
    if ds.len() == 0 {
        Seq::empty()
    } else {
        listing(ds.drop_last()) + if ds.last().supports_audio {
            device_line(ds.last())
        } else {
            Seq::empty()
        }
    }
}

fn address_of(d: &Device) -> (r: String)
    ensures
        r@ == address_text(d@),
{
    if d.addresses.len() == 0 {
        String::from_str("?")
    } else {
        let mut s = d.addresses[0].clone();
        s.append(":");
        let port = decimal_string(d.port as u64);
        s.append(port.as_str());
        s
    }
}

fn line_of(d: &Device) -> (r: String)
    ensures
        r@ == device_line(d@),
{
    let mut s = d.id.clone();
    s.append("\t");
    s.append(d.name.as_str());
    s.append("\t");
    let addr = address_of(d);
    s.append(addr.as_str());
    s.append("\t");
    if d.airplay2 {
        s.append("airplay2");
    } else {
        s.append("airplay1");
    }
    s.append("\n");
    s
}

/// The text that `list` prints for the discovered receivers: one line per
/// receiver that supports audio, in discovery order.
pub fn format_device_list(devices: &Vec<Device>) -> (out: String)
    ensures
        out@ == listing(devices_view(devices@)),
{
    let ghost dv = devices_view(devices@);
    let mut out = String::new();
    let n = devices.len();
    let mut i: usize = 0;
    while i < n
        invariant
            n == devices@.len(),
            dv == devices_view(devices@),
            i <= n,
            out@ == listing(dv.take(i as int)),
        decreases n - i,
    {
        let d = &devices[i];
        assert(dv.take(i + 1).drop_last() =~= dv.take(i as int));
        assert(dv.take(i + 1).last() == d@);
        if d.supports_audio {
            let line = line_of(d);
            out.append(line.as_str());
        }
        i = i + 1;
    }
    assert(dv.take(n as int) =~= dv);
    out
}

/// Whether a receiver accepts audio.
pub open spec fn is_audio(d: DeviceView) -> bool {
    d.supports_audio
}

/// Only audio-capable receivers are listed: the listing of any receivers is
/// the listing of those among them that accept audio.
pub proof fn lemma_listing_only_audio(ds: Seq<DeviceView>)
    ensures
        listing(ds) == listing(ds.filter(|d: DeviceView| is_audio(d))),
    decreases ds.len(),
{
    let p = |d: DeviceView| is_audio(d);
    reveal_with_fuel(Seq::<_>::filter, 1);
    if ds.len() > 0 {
        lemma_listing_only_audio(ds.drop_last());
        let f = ds.filter(p);
        let g = ds.drop_last().filter(p);
        if p(ds.last()) {
            assert(f == g.push(ds.last()));
            assert(f.drop_last() =~= g);
        } else {
            assert(f == g);
            assert(listing(g.filter(p)) == listing(g)) by {
                lemma_listing_only_audio(g);
                lemma_filter_idempotent(ds.drop_last());
            }
        }
    }
}

proof fn lemma_filter_idempotent(ds: Seq<DeviceView>)
    ensures
        ds.filter(|d: DeviceView| is_audio(d)).filter(|d: DeviceView| is_audio(d)) == ds.filter(
            |d: DeviceView| is_audio(d),
        ),
    decreases ds.len(),
{
    let p = |d: DeviceView| is_audio(d);
    reveal_with_fuel(Seq::<_>::filter, 1);
    if ds.len() > 0 {
        lemma_filter_idempotent(ds.drop_last());
        let g = ds.drop_last().filter(p);
        if p(ds.last()) {
            let f = g.push(ds.last());
            assert(f.drop_last() =~= g);
        }
    }
}

/// Nothing found, nothing listed.
pub proof fn lemma_listing_empty()
    ensures
        listing(Seq::empty()) == Seq::<char>::empty(),
{
}

/// One more receiver found adds its line, if it accepts audio, after the
/// lines so far: its id, its name, its first address with a colon and its
/// port (`?` when it has no address, whatever protocol it speaks), and
/// `airplay2` or `airplay1`, separated by tabs and ended by a newline.
pub proof fn lemma_listing_push(ds: Seq<DeviceView>, d: DeviceView)
    ensures
        listing(ds.push(d)) == listing(ds) + if d.supports_audio {
            d.id + "\t"@ + d.name + "\t"@ + (if d.addresses.len() == 0 {
                "?"@
            } else {
                d.addresses[0] + ":"@ + decimal(d.port as nat)
            }) + "\t"@ + (if d.airplay2 {
                "airplay2"@
            } else {
                "airplay1"@
            }) + "\n"@
        } else {
            Seq::<char>::empty()
        },
{
    assert(ds.push(d).drop_last() =~= ds);
}

/// The plain view of a list of receivers is, position by position, the
/// view of each receiver.
pub proof fn lemma_devices_view(ds: Seq<Device>)
    ensures
        devices_view(ds).len() == ds.len(),
        forall|k: int| 0 <= k < ds.len() ==> #[trigger] devices_view(ds)[k] == ds[k]@,
{
}

} // verus!
