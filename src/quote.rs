use vstd::prelude::*;

verus! {

/// `items` with `sep` between each two of them.
pub open spec fn joined(items: Seq<Seq<char>>, sep: Seq<char>) -> Seq<char>
    decreases items.len(),
{
    if items.len() == 0 {
        Seq::empty()
    } else if items.len() == 1 {
        items[0]
    } else {
        joined(items.drop_last(), sep) + sep + items.last()
    }
}

/// The address of the quote service for the given ticker symbols: its
/// base address followed by the symbols separated by commas.
pub fn build_quote_url(tickers: &Vec<String>) -> (url: String)
    ensures
        url@ == "https://query1.finance.yahoo.com/v7/finance/quote?symbols="@ + joined(
            tickers@.map_values(|t: String| t@),
            ","@,
        ),
{
    let mut url = String::from_str("https://query1.finance.yahoo.com/v7/finance/quote?symbols=");
    let ghost base = url@;
    let ghost names = tickers@.map_values(|t: String| t@);
    let n = tickers.len();
    assert(names.take(0) =~= Seq::<Seq<char>>::empty());
    assert(url@ =~= base + joined(names.take(0), ","@));
    for i in 0..n
        invariant
            n == tickers@.len(),
            names == tickers@.map_values(|t: String| t@),
            url@ == base + joined(names.take(i as int), ","@),
    {
        if i > 0 {
            url.append(",");
        }
        url.append(tickers[i].as_str());
        assert(names.take(i + 1).drop_last() =~= names.take(i as int));
        assert(names.take(i + 1).last() == tickers@[i as int]@);
        if i == 0 {
            assert(joined(names.take(1), ","@) == names.take(1)[0]);
        }
        assert(url@ =~= base + joined(names.take(i + 1), ","@));
    }
    assert(names.take(n as int) =~= names);
    url
}

} // verus!
