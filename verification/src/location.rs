//! The table of countries and cities, the searches over its sorted name
//! lists, and the settings that pick a location and a school of thought.

use vstd::prelude::*;

verus! {

/// `a` comes before `b` in the order of Rust's `str`: character by
/// character by code point, a proper prefix first. (UTF-8 keeps the order
/// of code points, so this is the order of the bytes too.)
pub open spec fn text_less(a: Seq<char>, b: Seq<char>) -> bool
    decreases a.len(),
{
    if a.len() == 0 {
        b.len() > 0
    } else if b.len() == 0 {
        false
    } else if a[0] != b[0] {
        a[0] < b[0]
    } else {
        text_less(a.drop_first(), b.drop_first())
    }
}

/// No text comes before itself.
pub proof fn text_less_irreflexive(a: Seq<char>)
    ensures
        !text_less(a, a),
    decreases a.len(),
{
    if a.len() > 0 {
        text_less_irreflexive(a.drop_first());
    }
}

/// The order of texts is transitive.
pub proof fn text_less_transitive(a: Seq<char>, b: Seq<char>, c: Seq<char>)
    requires
        text_less(a, b),
        text_less(b, c),
    ensures
        text_less(a, c),
    decreases a.len(),
{
    if a.len() > 0 && b.len() > 0 && c.len() > 0 && a[0] == b[0] && b[0] == c[0] {
        text_less_transitive(a.drop_first(), b.drop_first(), c.drop_first());
    }
}

/// Of two different texts, one comes before the other.
pub proof fn text_less_total(a: Seq<char>, b: Seq<char>)
    requires
        a != b,
    ensures
        text_less(a, b) || text_less(b, a),
    decreases a.len(),
{
    if a.len() > 0 && b.len() > 0 && a[0] == b[0] {
        if a.drop_first() == b.drop_first() {
            assert(a =~= seq![a[0]] + a.drop_first());
            assert(b =~= seq![b[0]] + b.drop_first());
        } else {
            text_less_total(a.drop_first(), b.drop_first());
        }
    } else if a.len() == 0 && b.len() == 0 {
        assert(a =~= b);
    } else if a.len() > 0 && b.len() > 0 {
        assert(a[0] < b[0] || b[0] < a[0]);
    }
}

/// Whether `a` comes before `b` in the order of `str`.
pub fn text_precedes(a: &str, b: &str) -> (r: bool)
    ensures
        r == text_less(a@, b@),
{
    let la = a.unicode_len();
    let lb = b.unicode_len();
    let mut i: usize = 0;
    assert(a@.skip(0) =~= a@);
    assert(b@.skip(0) =~= b@);
    while i < la && i < lb
        invariant
            la == a@.len(),
            lb == b@.len(),
            i <= la,
            i <= lb,
            text_less(a@, b@) == text_less(a@.skip(i as int), b@.skip(i as int)),
        decreases la - i,
    {
        let x = a.get_char(i);
        let y = b.get_char(i);
        if x != y {
            return x < y;
        }
        assert(a@.skip(i as int).drop_first() =~= a@.skip(i + 1));
        assert(b@.skip(i as int).drop_first() =~= b@.skip(i + 1));
        i = i + 1;
    }
    i < lb
}

/// What `str::to_lowercase` gives: the text with each character replaced
/// by its Unicode lowercase mapping.
pub uninterp spec fn lowercase_of(s: Seq<char>) -> Seq<char>;

/// `s` in lowercase, by std's `str::to_lowercase`. Unicode's mapping takes
/// tables to state, so the contract names the result; it depends on the
/// text alone.
#[verifier::external_body]
fn lowercase(s: &str) -> (r: String)
    ensures
        r@ == lowercase_of(s@),
{
    s.to_lowercase()
}

/// Each name in lowercase, in the same order.
pub fn lowercase_all(names: &Vec<String>) -> (r: Vec<String>)
    ensures
        r@.len() == names@.len(),
        forall|i: int| 0 <= i < names@.len() ==> #[trigger] r@[i]@ == lowercase_of(names@[i]@),
{
    let mut r: Vec<String> = Vec::new();
    let mut i: usize = 0;
    while i < names.len()
        invariant
            i <= names@.len(),
            r@.len() == i,
            forall|j: int| 0 <= j < i ==> #[trigger] r@[j]@ == lowercase_of(names@[j]@),
        decreases names@.len() - i,
    {
        r.push(lowercase(names[i].as_str()));
        i = i + 1;
    }
    r
}

/// Each name comes before the next: the list is sorted and has no name
/// twice.
pub open spec fn strictly_sorted(names: Seq<String>) -> bool {
    forall|i: int, j: int| 0 <= i < j < names.len() ==> text_less(names[i]@, names[j]@)
}

/// `p` is the place of `key` in the sorted list: every name before `p`
/// comes before `key`, and no name from `p` on does.
pub open spec fn is_insertion_point(names: Seq<String>, key: Seq<char>, p: int) -> bool {
    &&& 0 <= p <= names.len()
    &&& forall|i: int| 0 <= i < p ==> text_less(#[trigger] names[i]@, key)
    &&& forall|i: int| p <= i < names.len() ==> !text_less(#[trigger] names[i]@, key)
}

/// The place of `key` in a sorted list of names, as `binary_search` gives
/// it on such a list: the index of `key` when the list holds it, and else
/// the index at which it would be inserted. On a list that is not sorted
/// the result is some index from 0 to the length.
pub fn insertion_point(names: &Vec<String>, key: &str) -> (p: usize)
    ensures
        p <= names@.len(),
        strictly_sorted(names@) ==> is_insertion_point(names@, key@, p as int),
{
    let mut lo: usize = 0;
    let mut hi: usize = names.len();
    while lo < hi
        invariant
            lo <= hi <= names@.len(),
            strictly_sorted(names@) ==> forall|i: int| 0 <= i < lo ==> text_less(#[trigger] names@[i]@, key@),
            strictly_sorted(names@) ==> forall|i: int| hi <= i < names@.len() ==> !text_less(#[trigger] names@[i]@, key@),
        decreases hi - lo,
    {
        let mid = lo + (hi - lo) / 2;
        if text_precedes(names[mid].as_str(), key) {
            proof {
                if strictly_sorted(names@) {
                    assert forall|i: int| 0 <= i < mid + 1 implies text_less(#[trigger] names@[i]@, key@) by {
                        if i < mid {
                            text_less_transitive(names@[i]@, names@[mid as int]@, key@);
                        }
                    }
                }
            }
            lo = mid + 1;
        } else {
            proof {
                if strictly_sorted(names@) {
                    assert forall|i: int| mid <= i < names@.len() implies !text_less(#[trigger] names@[i]@, key@) by {
                        if i > mid && text_less(names@[i]@, key@) {
                            text_less_transitive(names@[mid as int]@, names@[i]@, key@);
                        }
                    }
                }
            }
            hi = mid;
        }
    }
    lo
}

/// The index of `key` in a sorted list of names, or `None` when the list
/// does not hold it.
pub fn find_name(names: &Vec<String>, key: &str) -> (r: Option<usize>)
    ensures
        r matches Some(i) ==> i < names@.len() && names@[i as int]@ == key@,
        strictly_sorted(names@) ==> (r is None <==> forall|i: int|
            0 <= i < names@.len() ==> #[trigger] names@[i]@ != key@),
{
    let p = insertion_point(names, key);
    if p < names.len() && !text_precedes(key, names[p].as_str()) && !text_precedes(
        names[p].as_str(),
        key,
    ) {
        proof {
            if names@[p as int]@ != key@ {
                text_less_total(names@[p as int]@, key@);
            }
        }
        Some(p)
    } else {
        proof {
            if strictly_sorted(names@) {
                assert forall|i: int| 0 <= i < names@.len() implies #[trigger] names@[i]@ != key@ by {
                    if names@[i]@ == key@ {
                        text_less_irreflexive(key@);
                        if i > p {
                            assert(text_less(names@[p as int]@, names@[i]@));
                        }
                    }
                }
            }
        }
        None
    }
}

/// Where the list shows the name typed so far: `None` for an empty query
/// (the list does not move); otherwise the place of the query, in
/// lowercase, in the sorted list of lowercase names.
pub fn search_position(lowercase_names: &Vec<String>, query: &str) -> (r: Option<usize>)
    ensures
        query@.len() == 0 <==> r is None,
        r matches Some(p) ==> p <= lowercase_names@.len() && (strictly_sorted(lowercase_names@)
            ==> is_insertion_point(lowercase_names@, lowercase_of(query@), p as int)),
{
    if query.is_empty() {
        None
    } else {
        let lower = lowercase(query);
        Some(insertion_point(lowercase_names, lower.as_str()))
    }
}

/// Whether each name of the list comes before the next.
pub fn names_sorted(names: &Vec<String>) -> (b: bool)
    ensures
        b == strictly_sorted(names@),
{
    let n = names.len();
    if n == 0 {
        return true;
    }
    let mut i: usize = 1;
    while i < n
        invariant
            1 <= i <= n,
            n == names@.len(),
            strictly_sorted(names@.take(i as int)),
        decreases n - i,
    {
        if !text_precedes(names[i - 1].as_str(), names[i].as_str()) {
            proof {
                assert(!strictly_sorted(names@)) by {
                    if strictly_sorted(names@) {
                        assert(text_less(names@[i - 1]@, names@[i as int]@));
                    }
                }
            }
            return false;
        }
        proof {
            let t = names@.take(i + 1);
            assert forall|a: int, b: int| 0 <= a < b < t.len() implies text_less(t[a]@, t[b]@) by {
                if b < i {
                    assert(names@.take(i as int)[a] == t[a] && names@.take(i as int)[b] == t[b]);
                } else if a < i - 1 {
                    assert(names@.take(i as int)[a] == t[a]);
                    assert(names@.take(i as int)[i - 1] == t[i - 1]);
                    text_less_transitive(t[a]@, t[i - 1]@, t[b]@);
                }
            }
        }
        i = i + 1;
    }
    assert(names@.take(n as int) =~= names@);
    true
}

/// A city and the query that asks the calendar service for its calendar.
pub struct City {
    pub name: String,
    pub query: String,
}

/// A country and its cities, sorted by name.
pub struct Country {
    pub name: String,
    pub cities: Vec<City>,
}

/// The countries whose cities the clock knows, sorted by name.
pub struct CityTable {
    pub countries: Vec<Country>,
}

/// Names of the cities of a country, in the table's order.
pub open spec fn city_names_of(country: Country) -> Seq<String> {
    Seq::new(country.cities@.len(), |j: int| country.cities@[j].name)
}

impl CityTable {
    /// Names of the countries, in the table's order.
    pub open spec fn country_names_spec(self) -> Seq<String> {
        Seq::new(self.countries@.len(), |i: int| self.countries@[i].name)
    }

    /// The countries, and the cities of each country, are sorted by name
    /// with no name twice.
    pub open spec fn wf(self) -> bool {
        &&& strictly_sorted(self.country_names_spec())
        &&& forall|i: int|
            0 <= i < self.countries@.len() ==> strictly_sorted(
                city_names_of(#[trigger] self.countries@[i]),
            )
    }

    /// Whether the table is well formed: its countries, and the cities of
    /// each country, sorted by name with no name twice.
    pub fn is_wf(&self) -> (b: bool)
        ensures
            b == self.wf(),
    {
        let names = self.country_names();
        if !names_sorted(&names) {
            return false;
        }
        let mut i: usize = 0;
        while i < self.countries.len()
            invariant
                i <= self.countries@.len(),
                strictly_sorted(self.country_names_spec()),
                forall|k: int| 0 <= k < i ==> strictly_sorted(city_names_of(#[trigger] self.countries@[k])),
            decreases self.countries@.len() - i,
        {
            let cities = self.city_names(i);
            if !names_sorted(&cities) {
                return false;
            }
            i = i + 1;
        }
        true
    }

    /// Names of the countries, in the table's order.
    pub fn country_names(&self) -> (r: Vec<String>)
        ensures
            r@ == self.country_names_spec(),
    {
        let mut r: Vec<String> = Vec::new();
        let mut i: usize = 0;
        while i < self.countries.len()
            invariant
                i <= self.countries@.len(),
                r@ == self.country_names_spec().take(i as int),
            decreases self.countries@.len() - i,
        {
            r.push(self.countries[i].name.clone());
            i = i + 1;
            assert(r@ =~= self.country_names_spec().take(i as int));
        }
        assert(r@ =~= self.country_names_spec());
        r
    }

    /// Names of the cities of the country at `country`, in the table's
    /// order.
    pub fn city_names(&self, country: usize) -> (r: Vec<String>)
        requires
            country < self.countries@.len(),
        ensures
            r@ == city_names_of(self.countries@[country as int]),
    {
        let cities = &self.countries[country].cities;
        let ghost names = city_names_of(self.countries@[country as int]);
        let mut r: Vec<String> = Vec::new();
        let mut j: usize = 0;
        while j < cities.len()
            invariant
                j <= cities@.len(),
                names == city_names_of(self.countries@[country as int]),
                *cities == self.countries@[country as int].cities,
                r@ == names.take(j as int),
            decreases cities@.len() - j,
        {
            r.push(cities[j].name.clone());
            j = j + 1;
            assert(r@ =~= names.take(j as int));
        }
        assert(r@ =~= names);
        r
    }

    /// Index of the country named `name`, or `None` when the table does
    /// not hold it.
    pub fn country_index(&self, name: &str) -> (r: Option<usize>)
        ensures
            r matches Some(i) ==> i < self.countries@.len() && self.countries@[i as int].name@ == name@,
            self.wf() ==> (r is None <==> forall|i: int|
                0 <= i < self.countries@.len() ==> #[trigger] self.countries@[i].name@ != name@),
    {
        let names = self.country_names();
        let r = find_name(&names, name);
        proof {
            if self.wf() && r is None {
                assert forall|i: int| 0 <= i < self.countries@.len() implies #[trigger] self.countries@[i].name@ != name@ by {
                    assert(names@[i] == self.countries@[i].name);
                }
            }
        }
        r
    }

    /// Index of the city named `name` among the cities of the country at
    /// `country`, or `None` when that country does not hold it.
    pub fn city_index(&self, country: usize, name: &str) -> (r: Option<usize>)
        requires
            country < self.countries@.len(),
        ensures
            r matches Some(j) ==> j < self.countries@[country as int].cities@.len()
                && self.countries@[country as int].cities@[j as int].name@ == name@,
            self.wf() ==> (r is None <==> forall|j: int|
                0 <= j < self.countries@[country as int].cities@.len()
                    ==> #[trigger] self.countries@[country as int].cities@[j].name@ != name@),
    {
        let names = self.city_names(country);
        let r = find_name(&names, name);
        proof {
            if self.wf() && r is None {
                assert(strictly_sorted(city_names_of(self.countries@[country as int])));
                assert forall|j: int| 0 <= j < self.countries@[country as int].cities@.len()
                    implies #[trigger] self.countries@[country as int].cities@[j].name@ != name@ by {
                    assert(names@[j] == self.countries@[country as int].cities@[j].name);
                }
            }
        }
        r
    }

    /// The calendar query of the city `city` of the country `country`, or
    /// `None` when the table does not hold that city.
    pub fn city_query(&self, country: &str, city: &str) -> (r: Option<String>)
        ensures
            r matches Some(q) ==> exists|i: int, j: int|
                {
                    &&& 0 <= i < self.countries@.len()
                    &&& 0 <= j < self.countries@[i].cities@.len()
                    &&& self.countries@[i].name@ == country@
                    &&& self.countries@[i].cities@[j].name@ == city@
                    &&& #[trigger] self.countries@[i].cities@[j].query@ == q@
                },
            self.wf() ==> (r is None <==> !exists|i: int, j: int|
                {
                    &&& 0 <= i < self.countries@.len()
                    &&& 0 <= j < self.countries@[i].cities@.len()
                    &&& #[trigger] self.countries@[i].name@ == country@
                    &&& #[trigger] self.countries@[i].cities@[j].name@ == city@
                }),
    {
        match self.country_index(country) {
            Some(i) => match self.city_index(i, city) {
                Some(j) => {
                    let q = self.countries[i].cities[j].query.clone();
                    assert(self.countries@[i as int].cities@[j as int].query@ == q@);
                    Some(q)
                },
                None => {
                    proof {
                        if self.wf() {
                            assert forall|a: int, b: int|
                                0 <= a < self.countries@.len() && 0 <= b < self.countries@[a].cities@.len()
                                    && #[trigger] self.countries@[a].name@ == country@
                                    implies #[trigger] self.countries@[a].cities@[b].name@ != city@ by {
                                if a != i {
                                    let lo = if a < i { a } else { i as int };
                                    let hi = if a < i { i as int } else { a };
                                    assert(text_less(self.country_names_spec()[lo]@, self.country_names_spec()[hi]@));
                                    text_less_irreflexive(country@);
                                }
                            }
                        }
                    }
                    None
                },
            },
            None => None,
        }
    }
}

/// The code that the calendar service takes for a school of thought, from
/// its name as the settings hold it: 0 for `Majority time`, 1 for
/// `Hanafi time`, and `None` for any other text.
pub fn school_code(school: &String) -> (r: Option<u32>)
    ensures
        school@ == "Majority time"@ ==> r == Some(0u32),
        school@ != "Majority time"@ && school@ == "Hanafi time"@ ==> r == Some(1u32),
        school@ != "Majority time"@ && school@ != "Hanafi time"@ ==> r is None,
{
    let majority = String::from_str("Majority time");
    let hanafi = String::from_str("Hanafi time");
    if *school == majority {
        Some(0)
    } else if *school == hanafi {
        Some(1)
    } else {
        None
    }
}

} // verus!
