//! The METAR station-model row.
use vstd::prelude::*;
use crate::jobs::shapes::{CodeByte, Coded};
use crate::jobs::{EncodeCtx, JobGeometry};
use crate::wire::{Parsed, Reader, Wire};

verus! {

/// Where the wind comes from.
#[derive(Clone, Copy, Debug, PartialEq, Eq, Structural)]
pub enum WindDir {
    Calm,
    Variable,
    Degrees(u16),
}

/// A station's wind direction on the wire: one tag byte, and the degrees where
/// there are any.
#[derive(Debug)]
pub struct WindDirWire(pub Option<WindDir>);

impl DeepView for WindDirWire {
    type V = Option<WindDir>;

    open spec fn deep_view(&self) -> Option<WindDir> {
        self.0
    }
}

impl Wire for WindDirWire {
    open spec fn fits(view: Option<WindDir>) -> bool {
        true
    }

    open spec fn encoded(view: Option<WindDir>) -> Seq<u8> {
        match view {
            None => seq![0u8],
            Some(WindDir::Calm) => seq![1u8],
            Some(WindDir::Variable) => seq![2u8],
            Some(WindDir::Degrees(d)) => seq![3u8] + u16::encoded(d),
        }
    }

    open spec fn parsed(bytes: Seq<u8>) -> Parsed<Option<WindDir>> {
        match u8::parsed(bytes) {
            Some((0, rest)) => Some((None, rest)),
            Some((1, rest)) => Some((Some(WindDir::Calm), rest)),
            Some((2, rest)) => Some((Some(WindDir::Variable), rest)),
            Some((3, after)) => match u16::parsed(after) {
                Some((d, rest)) => Some((Some(WindDir::Degrees(d)), rest)),
                None => None,
            },
            _ => None,
        }
    }

    open spec fn restored(&self) -> bool {
        true
    }

    fn encode(&self, out: &mut Vec<u8>) {
        match self.0 {
            None => 0u8.encode(out),
            Some(WindDir::Calm) => 1u8.encode(out),
            Some(WindDir::Variable) => 2u8.encode(out),
            Some(WindDir::Degrees(d)) => {
                3u8.encode(out);
                d.encode(out);
            },
        }
        assert(out@ =~= old(out)@ + Self::encoded(self.0));
    }

    fn decode(r: &mut Reader<'_>) -> (value: Option<WindDirWire>) {
        match u8::decode(r) {
            Some(0) => Some(WindDirWire(None)),
            Some(1) => Some(WindDirWire(Some(WindDir::Calm))),
            Some(2) => Some(WindDirWire(Some(WindDir::Variable))),
            Some(3) => match u16::decode(r) {
                Some(d) => Some(WindDirWire(Some(WindDir::Degrees(d)))),
                None => None,
            },
            _ => None,
        }
    }

    proof fn law_round_trip(view: Option<WindDir>, tail: Seq<u8>) {
        match view {
            None => u8::law_round_trip(0, tail),
            Some(WindDir::Calm) => u8::law_round_trip(1, tail),
            Some(WindDir::Variable) => u8::law_round_trip(2, tail),
            Some(WindDir::Degrees(d)) => {
                u8::law_round_trip(3, u16::encoded(d) + tail);
                u16::law_round_trip(d, tail);
                assert(Self::encoded(view) + tail =~= seq![3u8] + (u16::encoded(d) + tail));
            },
        }
    }

    proof fn law_canonical(bytes: Seq<u8>) {
        u8::law_canonical(bytes);
        if let Some((tag, after)) = u8::parsed(bytes) {
            u16::law_canonical(after);
            if let Some((d, rest)) = u16::parsed(after) {
                assert(seq![3u8] + (u16::encoded(d) + rest) =~= seq![3u8] + u16::encoded(d) + rest);
            }
        }
    }
}

/// A station's flight rules.
#[derive(Clone, Copy, Debug, PartialEq, Eq, Structural)]
pub enum FlightCategory {
    VFR,
    MVFR,
    IFR,
    LIFR,
}

impl Coded for Option<FlightCategory> {
    open spec fn code(self) -> u8 {
        match self {
            None => 0,
            Some(FlightCategory::VFR) => 1,
            Some(FlightCategory::MVFR) => 2,
            Some(FlightCategory::IFR) => 3,
            Some(FlightCategory::LIFR) => 4,
        }
    }

    open spec fn of_code(code: u8) -> Option<Option<FlightCategory>> {
        match code {
            0 => Some(None),
            1 => Some(Some(FlightCategory::VFR)),
            2 => Some(Some(FlightCategory::MVFR)),
            3 => Some(Some(FlightCategory::IFR)),
            4 => Some(Some(FlightCategory::LIFR)),
            _ => None,
        }
    }

    fn wire_code(self) -> (code: u8) {
        match self {
            None => 0,
            Some(FlightCategory::VFR) => 1,
            Some(FlightCategory::MVFR) => 2,
            Some(FlightCategory::IFR) => 3,
            Some(FlightCategory::LIFR) => 4,
        }
    }

    fn from_wire_code(code: u8) -> (value: Option<Option<FlightCategory>>) {
        match code {
            0 => Some(None),
            1 => Some(Some(FlightCategory::VFR)),
            2 => Some(Some(FlightCategory::MVFR)),
            3 => Some(Some(FlightCategory::IFR)),
            4 => Some(Some(FlightCategory::LIFR)),
            _ => None,
        }
    }

    proof fn law_codes(value: Option<FlightCategory>, code: u8) {
    }
}

/// How far a station sees.
#[derive(Clone, Copy, Debug, PartialEq, Eq, Structural)]
pub struct Visibility {
    /// An `f64` bit pattern.
    pub miles: u64,
    pub or_greater: bool,
}

/// The parts in wire order.
pub type VisibilityParts = (u64, bool);

impl DeepView for Visibility {
    type V = <VisibilityParts as DeepView>::V;

    open spec fn deep_view(&self) -> Self::V {
        (self.miles.deep_view(), self.or_greater.deep_view())
    }
}

impl Wire for Visibility {
    open spec fn fits(view: Self::V) -> bool {
        VisibilityParts::fits(view)
    }

    open spec fn encoded(view: Self::V) -> Seq<u8> {
        VisibilityParts::encoded(view)
    }

    open spec fn parsed(bytes: Seq<u8>) -> Parsed<Self::V> {
        VisibilityParts::parsed(bytes)
    }

    open spec fn restored(&self) -> bool {
        true
    }

    fn encode(&self, out: &mut Vec<u8>) {
        self.miles.encode(out);
        self.or_greater.encode(out);
        assert(out@ =~= old(out)@ + Self::encoded(self.deep_view()));
    }

    fn decode(r: &mut Reader<'_>) -> (value: Option<Visibility>) {
        match VisibilityParts::decode(r) {
            Some((miles, or_greater)) => Some(Visibility { miles, or_greater }),
            None => None,
        }
    }

    proof fn law_round_trip(view: Self::V, tail: Seq<u8>) {
        VisibilityParts::law_round_trip(view, tail);
    }

    proof fn law_canonical(bytes: Seq<u8>) {
        VisibilityParts::law_canonical(bytes);
    }
}

/// One layer of cloud.
#[derive(Debug)]
pub struct CloudLayer {
    pub cover: String,
    pub base_ft: Option<u32>,
}

/// The parts in wire order.
pub type CloudLayerParts = (String, Option<u32>);

impl DeepView for CloudLayer {
    type V = <CloudLayerParts as DeepView>::V;

    open spec fn deep_view(&self) -> Self::V {
        (self.cover.deep_view(), self.base_ft.deep_view())
    }
}

impl Wire for CloudLayer {
    open spec fn fits(view: Self::V) -> bool {
        CloudLayerParts::fits(view)
    }

    open spec fn encoded(view: Self::V) -> Seq<u8> {
        CloudLayerParts::encoded(view)
    }

    open spec fn parsed(bytes: Seq<u8>) -> Parsed<Self::V> {
        CloudLayerParts::parsed(bytes)
    }

    open spec fn restored(&self) -> bool {
        true
    }

    fn encode(&self, out: &mut Vec<u8>) {
        self.cover.encode(out);
        self.base_ft.encode(out);
        assert(out@ =~= old(out)@ + Self::encoded(self.deep_view()));
    }

    fn decode(r: &mut Reader<'_>) -> (value: Option<CloudLayer>) {
        match CloudLayerParts::decode(r) {
            Some((cover, base_ft)) => Some(CloudLayer { cover, base_ft }),
            None => None,
        }
    }

    proof fn law_round_trip(view: Self::V, tail: Seq<u8>) {
        CloudLayerParts::law_round_trip(view, tail);
    }

    proof fn law_canonical(bytes: Seq<u8>) {
        CloudLayerParts::law_canonical(bytes);
    }
}

proof fn lemma_append(out: Seq<u8>, first: Seq<u8>, rest: Seq<u8>)
    ensures
        out + first + rest == out + (first + rest),
{
    assert(out + first + rest =~= out + (first + rest));
}

/// One station's observation.
///
/// Twelve of its fields are drawn and travel. The other six (`name`, `elev_m`,
/// `wind_gust_kt`, `altimeter_hpa`, `raw_ob` and `obs_time`) are hover content,
/// and the far side gets them empty.
#[derive(Debug)]
pub struct MetarOb {
    pub station_id: String,
    pub name: String,
    /// An `f64` bit pattern.
    pub lat: u64,
    /// An `f64` bit pattern.
    pub lon: u64,
    /// An `f64` bit pattern.
    pub elev_m: Option<u64>,
    /// An `f64` bit pattern.
    pub temp_c: Option<u64>,
    /// An `f64` bit pattern.
    pub dewp_c: Option<u64>,
    pub wind_dir: Option<WindDir>,
    pub wind_speed_kt: Option<u16>,
    pub wind_gust_kt: Option<u16>,
    pub visibility: Option<Visibility>,
    /// An `f64` bit pattern.
    pub altimeter_hpa: Option<u64>,
    /// An `f64` bit pattern.
    pub mslp_hpa: Option<u64>,
    pub flight_category: Option<FlightCategory>,
    pub raw_ob: String,
    pub clouds: Vec<CloudLayer>,
    pub wx_string: Option<String>,
    pub obs_time: String,
}

/// The twelve parts that travel, in wire order.
pub type MetarObParts = (String, (u64, (u64, (Option<u64>, (Option<u64>, (Option<u64>, (WindDirWire,
    (Option<u16>, (Option<Visibility>, (CodeByte<Option<FlightCategory>>, (Option<String>,
    Vec<CloudLayer>)))))))))));

impl DeepView for MetarOb {
    type V = <MetarObParts as DeepView>::V;

    open spec fn deep_view(&self) -> Self::V {
        (self.station_id.deep_view(), (self.lat.deep_view(), (self.lon.deep_view(),
            (self.temp_c.deep_view(), (self.dewp_c.deep_view(), (self.mslp_hpa.deep_view(),
            (self.wind_dir, (self.wind_speed_kt.deep_view(), (self.visibility.deep_view(),
            (self.flight_category, (self.wx_string.deep_view(), self.clouds.deep_view())))))))))))
    }
}

impl Wire for MetarOb {
    open spec fn fits(view: Self::V) -> bool {
        MetarObParts::fits(view)
    }

    open spec fn encoded(view: Self::V) -> Seq<u8> {
        MetarObParts::encoded(view)
    }

    open spec fn parsed(bytes: Seq<u8>) -> Parsed<Self::V> {
        MetarObParts::parsed(bytes)
    }

    open spec fn restored(&self) -> bool {
        &&& self.name@.len() == 0
        &&& self.elev_m is None
        &&& self.wind_gust_kt is None
        &&& self.altimeter_hpa is None
        &&& self.raw_ob@.len() == 0
        &&& self.obs_time@.len() == 0
    }

    fn encode(&self, out: &mut Vec<u8>) {
        self.station_id.encode(out);
        let ghost s1 = out@;
        self.lat.encode(out);
        let ghost s2 = out@;
        self.lon.encode(out);
        let ghost s3 = out@;
        self.temp_c.encode(out);
        let ghost s4 = out@;
        self.dewp_c.encode(out);
        let ghost s5 = out@;
        self.mslp_hpa.encode(out);
        let ghost s6 = out@;
        WindDirWire(self.wind_dir).encode(out);
        let ghost s7 = out@;
        self.wind_speed_kt.encode(out);
        let ghost s8 = out@;
        self.visibility.encode(out);
        let ghost s9 = out@;
        CodeByte(self.flight_category).encode(out);
        let ghost s10 = out@;
        self.wx_string.encode(out);
        let ghost s11 = out@;
        self.clouds.encode(out);
        proof {
            let t12 = Vec::<CloudLayer>::encoded(self.clouds.deep_view());
            let p11 = Option::<String>::encoded(self.wx_string.deep_view());
            let t11 = p11 + t12;
            lemma_append(s10, p11, t12);
            let p10 = CodeByte::<Option<FlightCategory>>::encoded(self.flight_category);
            let t10 = p10 + t11;
            lemma_append(s9, p10, t11);
            let p9 = Option::<Visibility>::encoded(self.visibility.deep_view());
            let t9 = p9 + t10;
            lemma_append(s8, p9, t10);
            let p8 = Option::<u16>::encoded(self.wind_speed_kt.deep_view());
            let t8 = p8 + t9;
            lemma_append(s7, p8, t9);
            let p7 = WindDirWire::encoded(self.wind_dir);
            let t7 = p7 + t8;
            lemma_append(s6, p7, t8);
            let p6 = Option::<u64>::encoded(self.mslp_hpa.deep_view());
            let t6 = p6 + t7;
            lemma_append(s5, p6, t7);
            let p5 = Option::<u64>::encoded(self.dewp_c.deep_view());
            let t5 = p5 + t6;
            lemma_append(s4, p5, t6);
            let p4 = Option::<u64>::encoded(self.temp_c.deep_view());
            let t4 = p4 + t5;
            lemma_append(s3, p4, t5);
            let p3 = u64::encoded(self.lon);
            let t3 = p3 + t4;
            lemma_append(s2, p3, t4);
            let p2 = u64::encoded(self.lat);
            let t2 = p2 + t3;
            lemma_append(s1, p2, t3);
            let p1 = String::encoded(self.station_id@);
            let t1 = p1 + t2;
            lemma_append(old(out)@, p1, t2);
        }
    }

    fn decode(r: &mut Reader<'_>) -> (value: Option<MetarOb>) {
        match MetarObParts::decode(r) {
            Some((station_id, (lat, (lon, (temp_c, (dewp_c, (mslp_hpa, (WindDirWire(wind_dir),
                (wind_speed_kt, (visibility, (CodeByte(flight_category), (wx_string,
                clouds)))))))))))) => Some(MetarOb { station_id, lat, lon, temp_c, dewp_c, wind_dir,
                wind_speed_kt, visibility, mslp_hpa, flight_category, clouds, wx_string,
                name: String::new(), elev_m: None, wind_gust_kt: None, altimeter_hpa: None,
                raw_ob: String::new(), obs_time: String::new() }),
            None => None,
        }
    }

    proof fn law_round_trip(view: Self::V, tail: Seq<u8>) {
        MetarObParts::law_round_trip(view, tail);
    }

    proof fn law_canonical(bytes: Seq<u8>) {
        MetarObParts::law_canonical(bytes);
    }
}

/// The observations to paint. A row's position is its hit-map id.
#[derive(Debug)]
pub struct MetarInput {
    pub obs: Vec<MetarOb>,
    /// An `f64` bit pattern.
    pub zoom: u64,
    pub is_dark: bool,
    /// An `f32` bit pattern.
    pub device_scale: u32,
}

/// The parts in wire order.
pub type MetarInputParts = (u64, (bool, (u32, Vec<MetarOb>)));

impl DeepView for MetarInput {
    type V = <MetarInputParts as DeepView>::V;

    open spec fn deep_view(&self) -> Self::V {
        (self.zoom.deep_view(), (self.is_dark.deep_view(), (self.device_scale.deep_view(),
            self.obs.deep_view())))
    }
}

impl Wire for MetarInput {
    open spec fn fits(view: Self::V) -> bool {
        MetarInputParts::fits(view)
    }

    open spec fn encoded(view: Self::V) -> Seq<u8> {
        MetarInputParts::encoded(view)
    }

    open spec fn parsed(bytes: Seq<u8>) -> Parsed<Self::V> {
        MetarInputParts::parsed(bytes)
    }

    open spec fn restored(&self) -> bool {
        self.obs.restored()
    }

    fn encode(&self, out: &mut Vec<u8>) {
        self.zoom.encode(out);
        self.is_dark.encode(out);
        self.device_scale.encode(out);
        self.obs.encode(out);
        assert(out@ =~= old(out)@ + Self::encoded(self.deep_view()));
    }

    fn decode(r: &mut Reader<'_>) -> (value: Option<MetarInput>) {
        match MetarInputParts::decode(r) {
            Some((zoom, (is_dark, (device_scale, obs)))) => Some(MetarInput { obs, zoom, is_dark,
                device_scale }),
            None => None,
        }
    }

    proof fn law_round_trip(view: Self::V, tail: Seq<u8>) {
        MetarInputParts::law_round_trip(view, tail);
    }

    proof fn law_canonical(bytes: Seq<u8>) {
        MetarInputParts::law_canonical(bytes);
    }
}

/// The METAR station-model row.
#[derive(Clone, Copy, Debug)]
pub struct MetarJob;

impl MetarJob {
    /// Appends the input's bytes.
    pub fn encode(input: &MetarInput, _ctx: &EncodeCtx, out: &mut Vec<u8>)
        ensures
            final(out)@ == old(out)@ + MetarInput::encoded(input.deep_view()),
    {
        input.encode(out);
    }

    /// Reads an input back, or refuses; the geometry passes through as it came.
    pub fn decode(r: &mut Reader<'_>, geo: JobGeometry) -> (job: Option<(MetarInput, JobGeometry)>)
        ensures
            match MetarInput::parsed(old(r)@) {
                Some((view, rest)) => {
                    &&& job matches Some((input, geo_out))
                    &&& input.deep_view() == view
                    &&& geo_out == geo
                    &&& final(r)@ == rest
                    &&& input.obs.restored()
                },
                None => job is None,
            },
    {
        match MetarInput::decode(r) {
            Some(input) => Some((input, geo)),
            None => None,
        }
    }

    /// Decoding an encoded input gives it back and consumes exactly its bytes.
    pub proof fn law_round_trip(input: <MetarInput as DeepView>::V, tail: Seq<u8>)
        requires
            MetarInput::fits(input),
        ensures
            MetarInput::parsed(MetarInput::encoded(input) + tail) == Some((input, tail)),
    {
        <MetarInput as Wire>::law_round_trip(input, tail);
    }
}

} // verus!
