use vstd::prelude::*;
use vstd::string::StringExecFns;

verus! {

/// A monetary unit: how it is shown and how many minor units make one major
/// unit.
///
/// `minor_ratio` is meant to be a power of ten (100 for cents); nothing checks
/// it. `symbol_first` is stored but the rendering always puts the symbol first.
#[derive(Debug, Clone)]
pub struct Currency {
    pub iso_code: Option<String>,
    pub iso_numeric: Option<i16>,
    pub name: Option<String>,
    pub symbol: String,
    pub minor_ratio: i32,
    pub symbol_first: bool,
    pub decimal_mark: char,
    pub group_mark: char,
}

/// The characters of an optional text field.
pub open spec fn opt_text(o: Option<String>) -> Option<Seq<char>> {
    match o {
        Some(s) => Some(s@),
        None => None,
    }
}

fn opt_text_eq(a: &Option<String>, b: &Option<String>) -> (r: bool)
    ensures
        r == (opt_text(*a) == opt_text(*b)),
{
    match (a, b) {
        (Some(x), Some(y)) => *x == *y,
        (None, None) => true,
        _ => false,
    }
}

impl Currency {
    /// Two currencies are the same when every field holds the same value.
    pub open spec fn same_as(&self, o: &Currency) -> bool {
        &&& opt_text(self.iso_code) == opt_text(o.iso_code)
        &&& self.iso_numeric == o.iso_numeric
        &&& opt_text(self.name) == opt_text(o.name)
        &&& self.symbol@ == o.symbol@
        &&& self.minor_ratio == o.minor_ratio
        &&& self.symbol_first == o.symbol_first
        &&& self.decimal_mark == o.decimal_mark
        &&& self.group_mark == o.group_mark
    }

    /// The currency with the given symbol and every other field at its default:
    /// no ISO data, 100 minor units, symbol first, `.` and `,` as marks.
    pub fn simple(symbol: &'static str) -> (r: Currency)
        ensures
            r.symbol@ == symbol@,
            r.iso_code.is_none(),
            r.iso_numeric.is_none(),
            r.name.is_none(),
            r.minor_ratio == 100,
            r.symbol_first,
            r.decimal_mark == '.',
            r.group_mark == ',',
    {
        Currency { symbol: String::from_str(symbol), ..Default::default() }
    }
}

impl Default for Currency {
    fn default() -> (r: Currency)
        ensures
            r.symbol@ == Seq::<char>::empty(),
            r.iso_code.is_none(),
            r.iso_numeric.is_none(),
            r.name.is_none(),
            r.minor_ratio == 100,
            r.symbol_first,
            r.decimal_mark == '.',
            r.group_mark == ',',
    {
        Currency {
            iso_code: None,
            iso_numeric: None,
            name: None,
            symbol: String::new(),
            minor_ratio: 100,
            symbol_first: true,
            decimal_mark: '.',
            group_mark: ',',
        }
    }
}

impl PartialEq for Currency {
    fn eq(&self, o: &Currency) -> (r: bool) {
        opt_text_eq(&self.iso_code, &o.iso_code) && self.iso_numeric == o.iso_numeric
            && opt_text_eq(&self.name, &o.name) && self.symbol == o.symbol
            && self.minor_ratio == o.minor_ratio && self.symbol_first == o.symbol_first
            && self.decimal_mark == o.decimal_mark && self.group_mark == o.group_mark
    }
}

impl vstd::std_specs::cmp::PartialEqSpecImpl for Currency {
    open spec fn obeys_eq_spec() -> bool {
        true
    }

    open spec fn eq_spec(&self, o: &Currency) -> bool {
        self.same_as(o)
    }
}

} // verus!
