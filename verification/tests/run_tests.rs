use time::Duration;
use time::ParseError;
use time::PreciseTime;
use time::Timespec;
use time::at_offset;
use time::at_utc;
use time::get_time;
use time::precise_time_ns;
use time::strptime;

fn test_get_time() {
    static SOME_RECENT_DATE: i64 = 1325376000i64; // 2012-01-01T00:00:00Z

    let tv1 = get_time();
    assert!(tv1.sec > SOME_RECENT_DATE);
    assert!(tv1.nsec < 1000000000i32);

    let tv2 = get_time();
    assert!(tv2.sec >= tv1.sec);
    assert!(tv2.nsec < 1000000000i32);
}

fn test_precise_time() {
    let ns0 = precise_time_ns();
    let ns1 = precise_time_ns();
    assert!(ns1 >= ns0);

    let ns2 = precise_time_ns();
    assert!(ns2 >= ns1);
}

fn test_precise_time_to() {
    let t0 = PreciseTime(1000);
    let t1 = PreciseTime(1023);
    assert_eq!(Duration::nanoseconds(23), t0.to(t1));

    let t0 = PreciseTime(u64::MAX - 10);
    let t1 = PreciseTime(15);
    assert_eq!(Duration::nanoseconds(26), t0.to(t1));
}

fn test_at_utc() {
    let time = Timespec::new(1234567890, 54321);
    let utc = at_utc(time);

    assert_eq!(utc.tm_sec, 30);
    assert_eq!(utc.tm_min, 31);
    assert_eq!(utc.tm_hour, 23);
    assert_eq!(utc.tm_mday, 13);
    assert_eq!(utc.tm_mon, 1);
    assert_eq!(utc.tm_year, 109);
    assert_eq!(utc.tm_wday, 5);
    assert_eq!(utc.tm_yday, 43);
    assert_eq!(utc.tm_isdst, 0);
    assert_eq!(utc.tm_utcoff, 0);
    assert_eq!(utc.tm_nsec, 54321);
}

fn test_to_timespec() {
    let time = Timespec::new(1234567890, 54321);
    let utc = at_utc(time);

    assert_eq!(utc.to_timespec(), time);
}

fn test_conversions() {
    let time = Timespec::new(1234567890, 54321);
    let utc = at_utc(time);
    let local = at_offset(time, -28800);

    assert!(utc.to_utc() == utc);
    assert!(local.to_utc() == utc);
    assert_eq!(local.to_timespec(), time);
}

fn test_strptime() {
    match strptime("", "") {
        Ok(ref tm) => {
            assert!(tm.tm_sec == 0);
            assert!(tm.tm_min == 0);
            assert!(tm.tm_hour == 0);
            assert!(tm.tm_mday == 0);
            assert!(tm.tm_mon == 0);
            assert!(tm.tm_year == 0);
            assert!(tm.tm_wday == 0);
            assert!(tm.tm_isdst == 0);
            assert!(tm.tm_utcoff == 0);
            assert!(tm.tm_nsec == 0);
        }
        Err(_) => (),
    }

    let format = "%a %b %e %T.%f %Y";
    assert_eq!(strptime("", format), Err(ParseError::InvalidTime));
    assert!(strptime("Fri Feb 13 15:31:30", format) == Err(ParseError::InvalidTime));

    match strptime("Fri Feb 13 15:31:30.01234 2009", format) {
        Err(e) => panic!("{}", e.to_string()),
        Ok(ref tm) => {
            assert!(tm.tm_sec == 30);
            assert!(tm.tm_min == 31);
            assert!(tm.tm_hour == 15);
            assert!(tm.tm_mday == 13);
            assert!(tm.tm_mon == 1);
            assert!(tm.tm_year == 109);
            assert!(tm.tm_wday == 5);
            assert!(tm.tm_yday == 0);
            assert!(tm.tm_isdst == 0);
            assert!(tm.tm_utcoff == 0);
            assert!(tm.tm_nsec == 12340000);
        }
    }

    fn test(s: &str, format: &str) -> bool {
        match strptime(s, format) {
            Ok(ref tm) => tm.strftime(format).unwrap().to_string() == s.to_string(),
            Err(e) => panic!("{}", e.to_string()),
        }
    }

    let days = [
        "Sunday".to_string(),
        "Monday".to_string(),
        "Tuesday".to_string(),
        "Wednesday".to_string(),
        "Thursday".to_string(),
        "Friday".to_string(),
        "Saturday".to_string(),
    ];
    for day in days.iter() {
        assert!(test(day.as_str(), "%A"));
    }

    let days = [
        "Sun".to_string(),
        "Mon".to_string(),
        "Tue".to_string(),
        "Wed".to_string(),
        "Thu".to_string(),
        "Fri".to_string(),
        "Sat".to_string(),
    ];
    for day in days.iter() {
        assert!(test(day.as_str(), "%a"));
    }

    let months = [
        "January".to_string(),
        "February".to_string(),
        "March".to_string(),
        "April".to_string(),
        "May".to_string(),
        "June".to_string(),
        "July".to_string(),
        "August".to_string(),
        "September".to_string(),
        "October".to_string(),
        "November".to_string(),
        "December".to_string(),
    ];
    for day in months.iter() {
        assert!(test(day.as_str(), "%B"));
    }

    let months = [
        "Jan".to_string(),
        "Feb".to_string(),
        "Mar".to_string(),
        "Apr".to_string(),
        "May".to_string(),
        "Jun".to_string(),
        "Jul".to_string(),
        "Aug".to_string(),
        "Sep".to_string(),
        "Oct".to_string(),
        "Nov".to_string(),
        "Dec".to_string(),
    ];
    for day in months.iter() {
        assert!(test(day.as_str(), "%b"));
    }

    assert!(test("19", "%C"));
    assert!(test("Fri Feb 13 23:31:30 2009", "%c"));
    assert!(test("02/13/09", "%D"));
    assert!(test("03", "%d"));
    assert!(test("13", "%d"));
    assert!(test(" 3", "%e"));
    assert!(test("13", "%e"));
    assert!(test("2009-02-13", "%F"));
    assert!(test("03", "%H"));
    assert!(test("13", "%H"));
    assert!(test("03", "%I"));
    assert!(test("11", "%I"));
    assert!(test("044", "%j"));
    assert!(test(" 3", "%k"));
    assert!(test("13", "%k"));
    assert!(test(" 1", "%l"));
    assert!(test("11", "%l"));
    assert!(test("03", "%M"));
    assert!(test("13", "%M"));
    assert!(test("\n", "%n"));
    assert!(test("am", "%P"));
    assert!(test("pm", "%P"));
    assert!(test("AM", "%p"));
    assert!(test("PM", "%p"));
    assert!(test("23:31", "%R"));
    assert!(test("11:31:30 AM", "%r"));
    assert!(test("11:31:30 PM", "%r"));
    assert!(test("03", "%S"));
    assert!(test("13", "%S"));
    assert!(test("15:31:30", "%T"));
    assert!(test("\t", "%t"));
    assert!(test("1", "%u"));
    assert!(test("7", "%u"));
    assert!(test("13-Feb-2009", "%v"));
    assert!(test("0", "%w"));
    assert!(test("6", "%w"));
    assert!(test("2009", "%Y"));
    assert!(test("09", "%y"));
    assert!(strptime("-0000", "%z").unwrap().tm_utcoff == 0);
    assert_eq!(-28800, strptime("-0800", "%z").unwrap().tm_utcoff);
    assert_eq!(28800, strptime("+0800", "%z").unwrap().tm_utcoff);
    assert_eq!(5400, strptime("+0130", "%z").unwrap().tm_utcoff);
    assert!(test("%", "%%"));

    assert_eq!(strptime("360", "%Y-%m-%d"), Err(ParseError::InvalidYear));
}

fn test_asctime() {
    let time = Timespec::new(1234567890, 54321);
    let utc = at_utc(time);

    assert_eq!(utc.asctime().to_string(), "Fri Feb 13 23:31:30 2009".to_string());
}

fn test_strftime() {
    let time = Timespec::new(1234567890, 54321);
    let utc = at_utc(time);
    let local = at_offset(time, -28800);

    assert_eq!(local.strftime("").unwrap().to_string(), "".to_string());
    assert_eq!(local.strftime("%A").unwrap().to_string(), "Friday".to_string());
    assert_eq!(local.strftime("%a").unwrap().to_string(), "Fri".to_string());
    assert_eq!(local.strftime("%B").unwrap().to_string(), "February".to_string());
    assert_eq!(local.strftime("%b").unwrap().to_string(), "Feb".to_string());
    assert_eq!(local.strftime("%C").unwrap().to_string(), "20".to_string());
    assert_eq!(
        local.strftime("%c").unwrap().to_string(),
        "Fri Feb 13 15:31:30 2009".to_string()
    );
    assert_eq!(local.strftime("%D").unwrap().to_string(), "02/13/09".to_string());
    assert_eq!(local.strftime("%d").unwrap().to_string(), "13".to_string());
    assert_eq!(local.strftime("%e").unwrap().to_string(), "13".to_string());
    assert_eq!(local.strftime("%F").unwrap().to_string(), "2009-02-13".to_string());
    assert_eq!(local.strftime("%f").unwrap().to_string(), "000054321".to_string());
    assert_eq!(local.strftime("%G").unwrap().to_string(), "2009".to_string());
    assert_eq!(local.strftime("%g").unwrap().to_string(), "09".to_string());
    assert_eq!(local.strftime("%H").unwrap().to_string(), "15".to_string());
    assert_eq!(local.strftime("%h").unwrap().to_string(), "Feb".to_string());
    assert_eq!(local.strftime("%I").unwrap().to_string(), "03".to_string());
    assert_eq!(local.strftime("%j").unwrap().to_string(), "044".to_string());
    assert_eq!(local.strftime("%k").unwrap().to_string(), "15".to_string());
    assert_eq!(local.strftime("%l").unwrap().to_string(), " 3".to_string());
    assert_eq!(local.strftime("%M").unwrap().to_string(), "31".to_string());
    assert_eq!(local.strftime("%m").unwrap().to_string(), "02".to_string());
    assert_eq!(local.strftime("%n").unwrap().to_string(), "\n".to_string());
    assert_eq!(local.strftime("%P").unwrap().to_string(), "pm".to_string());
    assert_eq!(local.strftime("%p").unwrap().to_string(), "PM".to_string());
    assert_eq!(local.strftime("%R").unwrap().to_string(), "15:31".to_string());
    assert_eq!(local.strftime("%r").unwrap().to_string(), "03:31:30 PM".to_string());
    assert_eq!(local.strftime("%S").unwrap().to_string(), "30".to_string());
    assert_eq!(local.strftime("%s").unwrap().to_string(), "1234567890".to_string());
    assert_eq!(local.strftime("%T").unwrap().to_string(), "15:31:30".to_string());
    assert_eq!(local.strftime("%t").unwrap().to_string(), "\t".to_string());
    assert_eq!(local.strftime("%U").unwrap().to_string(), "06".to_string());
    assert_eq!(local.strftime("%u").unwrap().to_string(), "5".to_string());
    assert_eq!(local.strftime("%V").unwrap().to_string(), "07".to_string());
    assert_eq!(local.strftime("%v").unwrap().to_string(), "13-Feb-2009".to_string());
    assert_eq!(local.strftime("%W").unwrap().to_string(), "06".to_string());
    assert_eq!(local.strftime("%w").unwrap().to_string(), "5".to_string());
    assert_eq!(local.strftime("%X").unwrap().to_string(), "15:31:30".to_string());
    assert_eq!(local.strftime("%x").unwrap().to_string(), "02/13/09".to_string());
    assert_eq!(local.strftime("%Y").unwrap().to_string(), "2009".to_string());
    assert_eq!(local.strftime("%y").unwrap().to_string(), "09".to_string());
    assert_eq!(local.strftime("%Z").unwrap().to_string(), "".to_string());
    assert_eq!(local.strftime("%z").unwrap().to_string(), "-0800".to_string());
    assert_eq!(
        local.strftime("%+").unwrap().to_string(),
        "2009-02-13T15:31:30-08:00".to_string()
    );
    assert_eq!(local.strftime("%%").unwrap().to_string(), "%".to_string());

    let invalid_specifiers = ["%E", "%J", "%K", "%L", "%N", "%O", "%o", "%Q", "%q"];
    for &sp in invalid_specifiers.iter() {
        assert_eq!(
            local.strftime(sp).unwrap_err(),
            ParseError::InvalidFormatSpecifier(sp.chars().nth(1).unwrap())
        );
    }
    assert_eq!(local.strftime("%").unwrap_err(), ParseError::MissingFormatConverter);
    assert_eq!(local.strftime("%A %").unwrap_err(), ParseError::MissingFormatConverter);

    assert_eq!(local.asctime().to_string(), "Fri Feb 13 15:31:30 2009".to_string());
    assert_eq!(
        local.rfc822z().to_string(),
        "Fri, 13 Feb 2009 15:31:30 -0800".to_string()
    );
    assert_eq!(local.rfc3339().to_string(), "2009-02-13T15:31:30-08:00".to_string());

    assert_eq!(utc.asctime().to_string(), "Fri Feb 13 23:31:30 2009".to_string());
    assert_eq!(utc.rfc822().to_string(), "Fri, 13 Feb 2009 23:31:30 GMT".to_string());
    // A zero offset carries a plus sign: the sign is plus for every
    // offset at least zero.
    assert_eq!(utc.rfc822z().to_string(), "Fri, 13 Feb 2009 23:31:30 +0000".to_string());
    assert_eq!(utc.rfc3339().to_string(), "2009-02-13T23:31:30Z".to_string());
}

fn test_timespec_eq_ord() {
    let a = &Timespec::new(-2, 1);
    let b = &Timespec::new(-1, 2);
    let c = &Timespec::new(1, 2);
    let d = &Timespec::new(2, 1);
    let e = &Timespec::new(2, 1);

    assert!(d.eq(e));
    assert!(c.ne(e));

    assert!(a.lt(b));
    assert!(b.lt(c));
    assert!(c.lt(d));

    assert!(a.le(b));
    assert!(b.le(c));
    assert!(c.le(d));
    assert!(d.le(e));
    assert!(e.le(d));

    assert!(b.ge(a));
    assert!(c.ge(b));
    assert!(d.ge(c));
    assert!(e.ge(d));
    assert!(d.ge(e));

    assert!(b.gt(a));
    assert!(c.gt(b));
    assert!(d.gt(c));
}

fn test_timespec_add() {
    let a = Timespec::new(1, 2);
    let b = Duration::seconds(2).add(&Duration::nanoseconds(3));
    let c = a.add(&b);
    assert_eq!(c.sec, 3);
    assert_eq!(c.nsec, 5);

    let p = Timespec::new(1, 1_000_000_000 - 2);
    let q = Duration::seconds(2).add(&Duration::nanoseconds(2));
    let r = p.add(&q);
    assert_eq!(r.sec, 4);
    assert_eq!(r.nsec, 0);

    let u = Timespec::new(1, 1_000_000_000 - 2);
    let v = Duration::seconds(2).add(&Duration::nanoseconds(3));
    let w = u.add(&v);
    assert_eq!(w.sec, 4);
    assert_eq!(w.nsec, 1);

    let k = Timespec::new(1, 0);
    let l = Duration::nanoseconds(-1);
    let m = k.add(&l);
    assert_eq!(m.sec, 0);
    assert_eq!(m.nsec, 999_999_999);
}

fn test_timespec_sub() {
    let a = Timespec::new(2, 3);
    let b = Timespec::new(1, 2);
    let c = a.difference(&b);
    assert_eq!(c.num_nanoseconds(), Some(1_000_000_000i64 + 1));

    let p = Timespec::new(2, 0);
    let q = Timespec::new(1, 2);
    let r = p.difference(&q);
    assert_eq!(r.num_nanoseconds(), Some(1_000_000_000i64 - 2));

    let u = Timespec::new(1, 2);
    let v = Timespec::new(2, 3);
    let w = u.difference(&v);
    assert_eq!(w.num_nanoseconds(), Some(-1_000_000_000i64 - 1));
}

#[test]
fn run_tests() {
    test_get_time();
    test_precise_time();
    test_precise_time_to();
    test_at_utc();
    test_to_timespec();
    test_conversions();
    test_strptime();
    test_asctime();
    test_strftime();
    test_timespec_eq_ord();
    test_timespec_add();
    test_timespec_sub();
}
