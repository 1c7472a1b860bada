use date_stuff::command::{resolve, Command, Defaults};
use date_stuff::date::Date;
use date_stuff::error::{CalendarError, Overflow};
use date_stuff::layout::{compose, is_blank_line};
use date_stuff::month::CalendarMonth;
use date_stuff::render::{line_text, render_months, title_line, Cell, Style};
use date_stuff::week::IsoWeek;

fn d(year: i32, month: u8, day: u8) -> Date {
    Date { year, month, day }
}

fn texts(block: &Vec<Vec<Cell>>) -> Vec<String> {
    block.iter().map(|l| line_text(l)).collect()
}

#[test]
fn next_day_within_and_across_months() {
    assert_eq!(d(2019, 1, 1).next_day(), Ok(d(2019, 1, 2)));
    assert_eq!(d(2019, 1, 31).next_day(), Ok(d(2019, 2, 1)));
    assert_eq!(d(2019, 12, 31).next_day(), Ok(d(2020, 1, 1)));
    assert_eq!(d(2024, 2, 28).next_day(), Ok(d(2024, 2, 29)));
    assert_eq!(d(2023, 2, 28).next_day(), Ok(d(2023, 3, 1)));
}

#[test]
fn next_day_fails_on_last_date() {
    assert_eq!(
        d(9999, 12, 31).next_day(),
        Err(CalendarError::Overflow(Overflow::NextDay))
    );
}

#[test]
fn seven_next_days_equal_one_week() {
    for date in [d(2019, 1, 1), d(2020, 2, 25), d(2023, 12, 28), d(1900, 2, 27), d(-44, 3, 15)] {
        let mut cur = date;
        for _ in 0..7 {
            cur = cur.next_day().unwrap();
        }
        assert_eq!(date.add_weeks(1), Ok(cur));
    }
}

#[test]
fn add_weeks_counts_seven_days_per_week() {
    assert_eq!(d(2024, 1, 1).add_weeks(4), Ok(d(2024, 1, 29)));
    assert_eq!(d(2023, 12, 25).add_weeks(1), Ok(d(2024, 1, 1)));
    assert_eq!(
        d(9999, 12, 28).add_weeks(1),
        Err(CalendarError::Overflow(Overflow::AddWeeks))
    );
}

#[test]
fn from_parts_checks_validity() {
    assert_eq!(Date::from_parts(2024, 2, 29), Some(d(2024, 2, 29)));
    assert_eq!(Date::from_parts(2023, 2, 29), None);
    assert_eq!(Date::from_parts(2023, 13, 1), None);
    assert_eq!(Date::from_parts(10000, 1, 1), None);
}

#[test]
fn iso_week_of_year_boundaries() {
    assert_eq!(IsoWeek::new(d(2019, 1, 1)), IsoWeek { year: 2019, week: 1 });
    assert_eq!(IsoWeek::new(d(2019, 10, 4)), IsoWeek { year: 2019, week: 40 });
    assert_eq!(IsoWeek::new(d(2020, 12, 31)), IsoWeek { year: 2020, week: 53 });
    assert_eq!(IsoWeek::new(d(2021, 1, 1)), IsoWeek { year: 2020, week: 53 });
    assert_eq!(IsoWeek::new(d(2024, 12, 30)), IsoWeek { year: 2025, week: 1 });
}

#[test]
fn first_and_last_date_of_week() {
    let w = IsoWeek { year: 2020, week: 53 };
    assert_eq!(w.first_date(), Ok(d(2020, 12, 28)));
    assert_eq!(w.last_date(), Ok(d(2021, 1, 3)));
    assert_eq!(
        IsoWeek { year: 2019, week: 53 }.first_date(),
        Err(CalendarError::Overflow(Overflow::FirstDateInWeek))
    );
    assert_eq!(
        IsoWeek { year: 2019, week: 53 }.last_date(),
        Err(CalendarError::Overflow(Overflow::LastDateInWeek))
    );
}

#[test]
fn week_round_trips_through_its_monday() {
    for w in [
        IsoWeek { year: 2020, week: 53 },
        IsoWeek { year: 2021, week: 1 },
        IsoWeek { year: 2024, week: 9 },
        IsoWeek { year: 2026, week: 52 },
    ] {
        let back = IsoWeek::new(w.first_date().unwrap());
        assert_eq!(back.week, w.week);
        assert_eq!(back.year, w.year);
    }
}

#[test]
fn next_week_crosses_iso_years() {
    assert_eq!(
        IsoWeek { year: 2020, week: 53 }.next_week(),
        Ok(IsoWeek { year: 2021, week: 1 })
    );
    assert_eq!(
        IsoWeek { year: 2021, week: 52 }.next_week(),
        Ok(IsoWeek { year: 2022, week: 1 })
    );
    assert_eq!(
        IsoWeek { year: 2024, week: 5 }.next_week(),
        Ok(IsoWeek { year: 2024, week: 6 })
    );
}

#[test]
fn weekdays_run_monday_to_sunday() {
    let days = IsoWeek { year: 2024, week: 5 }.weekdays().unwrap();
    assert_eq!(
        days,
        [
            d(2024, 1, 29),
            d(2024, 1, 30),
            d(2024, 1, 31),
            d(2024, 2, 1),
            d(2024, 2, 2),
            d(2024, 2, 3),
            d(2024, 2, 4)
        ]
    );
}

#[test]
fn month_previous_and_next_roll_over_years() {
    let jan = CalendarMonth { year: 2024, month: 1 };
    let dec = CalendarMonth { year: 2023, month: 12 };
    assert_eq!(jan.previous(), Ok(dec));
    assert_eq!(dec.next(), Ok(jan));
    for m in [jan, dec, CalendarMonth { year: 2024, month: 6 }] {
        assert_eq!(m.previous().unwrap().next(), Ok(m));
        assert_eq!(m.next().unwrap().previous(), Ok(m));
    }
}

#[test]
fn month_steps_fail_at_year_range_ends() {
    assert_eq!(
        CalendarMonth { year: i32::MAX, month: 12 }.next(),
        Err(CalendarError::Overflow(Overflow::NextMonth))
    );
    assert_eq!(
        CalendarMonth { year: i32::MIN, month: 1 }.previous(),
        Err(CalendarError::Overflow(Overflow::PreviousMonth))
    );
    assert_eq!(
        CalendarMonth { year: i32::MAX, month: 11 }.next(),
        Ok(CalendarMonth { year: i32::MAX, month: 12 })
    );
}

#[test]
fn month_new_rejects_bad_numbers() {
    assert_eq!(CalendarMonth::new(2024, 3), Ok(CalendarMonth { year: 2024, month: 3 }));
    assert_eq!(CalendarMonth::new(2024, 0), Err(CalendarError::InvalidMonth(0)));
    assert_eq!(CalendarMonth::new(2024, 13), Err(CalendarError::InvalidMonth(13)));
}

#[test]
fn month_first_date_and_week() {
    let m = CalendarMonth { year: 2021, month: 1 };
    assert_eq!(m.first_date(), Ok(d(2021, 1, 1)));
    assert_eq!(m.first_week(), Ok(IsoWeek { year: 2020, week: 53 }));
    assert_eq!(
        CalendarMonth { year: 100000, month: 1 }.first_date(),
        Err(CalendarError::Overflow(Overflow::FirstDateInMonth))
    );
}

#[test]
fn contains_week_by_monday_or_sunday() {
    let jan = CalendarMonth { year: 2024, month: 1 };
    let feb = CalendarMonth { year: 2024, month: 2 };
    let straddle = IsoWeek { year: 2024, week: 5 };
    assert_eq!(jan.contains_week(straddle), Ok(true));
    assert_eq!(feb.contains_week(straddle), Ok(true));
    assert_eq!(jan.contains_week(IsoWeek { year: 2024, week: 6 }), Ok(false));
    assert_eq!(feb.contains_week(IsoWeek { year: 2024, week: 4 }), Ok(false));
    assert!(jan.contains_date(d(2024, 1, 31)));
    assert!(!jan.contains_date(d(2023, 1, 31)));
}

#[test]
fn render_january_2024() {
    let today = d(2024, 1, 17);
    let block = CalendarMonth { year: 2024, month: 1 }.render(today).unwrap();
    let lines = texts(&block);
    assert_eq!(
        lines,
        vec![
            "          January       ".to_string(),
            "    Mo Tu We Th Fr Sa Su".to_string(),
            " 1   1  2  3  4  5  6  7".to_string(),
            " 2   8  9 10 11 12 13 14".to_string(),
            " 3  15 16 17 18 19 20 21".to_string(),
            " 4  22 23 24 25 26 27 28".to_string(),
            " 5  29 30 31  1  2  3  4".to_string(),
            "                        ".to_string(),
        ]
    );
    let week5 = &block[6];
    assert_eq!(week5.len(), 8);
    assert_eq!(week5[0].style, Style::Dim);
    assert_eq!(week5[3].style, Style::Plain);
    for cell in &week5[4..] {
        assert_eq!(cell.style, Style::OutsideMonth);
    }
    assert_eq!(block[4][3].text, " 17");
    assert_eq!(block[4][3].style, Style::Today);
}

#[test]
fn render_month_spanning_six_weeks() {
    let block = CalendarMonth { year: 2021, month: 5 }.render(d(2000, 1, 1)).unwrap();
    let lines = texts(&block);
    assert_eq!(lines[2], "17  26 27 28 29 30  1  2");
    assert_eq!(lines[7], "22  31  1  2  3  4  5  6");
    let feb = CalendarMonth { year: 2021, month: 2 }.render(d(2000, 1, 1)).unwrap();
    let lines = texts(&feb);
    assert_eq!(lines[2], " 5   1  2  3  4  5  6  7");
    assert_eq!(lines[5], " 8  22 23 24 25 26 27 28");
    assert!(lines[6].trim().is_empty());
    assert!(lines[7].trim().is_empty());
}

#[test]
fn render_straddle_week_belongs_to_both_months() {
    let jan = texts(&CalendarMonth { year: 2021, month: 1 }.render(d(2000, 1, 1)).unwrap());
    assert_eq!(jan[2], "53  28 29 30 31  1  2  3");
    let dec = texts(&CalendarMonth { year: 2020, month: 12 }.render(d(2000, 1, 1)).unwrap());
    assert_eq!(dec[6], "53  28 29 30 31  1  2  3");
}

#[test]
fn rendered_blocks_are_eight_lines_of_24() {
    for year in [1999, 2020, 2021, 2024] {
        for month in 1..=12u8 {
            let block = CalendarMonth { year, month }.render(d(2024, 1, 1)).unwrap();
            assert_eq!(block.len(), 8);
            for line in texts(&block) {
                assert_eq!(line.chars().count(), 24);
            }
        }
    }
}

#[test]
fn render_beyond_date_range_fails() {
    assert_eq!(
        CalendarMonth { year: 100000, month: 1 }.render(d(2024, 1, 1)).unwrap_err(),
        CalendarError::Overflow(Overflow::FirstDateInMonth)
    );
    assert!(CalendarMonth { year: i32::MAX, month: 6 }.render(d(2024, 1, 1)).is_err());
}

#[test]
fn far_year_fails_with_overflow_not_a_wrapped_date() {
    assert!("9999999999".parse::<i32>().is_err());
    let cmd = resolve(Some(i32::MAX), None, None, None, None, d(2024, 1, 1), Defaults::standard()).unwrap();
    let months = cmd.months().unwrap();
    assert_eq!(
        render_months(&months, d(2024, 1, 1)).unwrap_err(),
        CalendarError::Overflow(Overflow::FirstDateInMonth)
    );
    let last = Command::RenderMonths { year: i32::MAX, month: 12, before: 0, after: 0 }.months().unwrap();
    assert_eq!(last, vec![CalendarMonth { year: i32::MAX, month: 12 }]);
    assert_eq!(
        render_months(&last, d(2024, 1, 1)).unwrap_err(),
        CalendarError::Overflow(Overflow::FirstDateInMonth)
    );
}

#[test]
fn title_is_centred() {
    assert_eq!(title_line(5), "            May         ");
    assert_eq!(title_line(9), "         September      ");
}

#[test]
fn compose_one_line_blocks() {
    let blocks = vec![vec!["A".to_string()], vec!["".to_string()], vec!["C".to_string()]];
    assert_eq!(compose(&blocks), vec!["A        C".to_string()]);
}

#[test]
fn compose_drops_lines_blank_across_a_chunk() {
    let blocks = vec![
        vec!["x".to_string(), "  ".to_string()],
        vec!["y".to_string(), " ".to_string()],
        vec!["z".to_string(), "".to_string()],
        vec!["w".to_string(), "v".to_string()],
    ];
    assert_eq!(
        compose(&blocks),
        vec!["x    y    z".to_string(), "w".to_string(), "v".to_string()]
    );
    assert!(compose(&Vec::new()).is_empty());
    assert!(is_blank_line(&" \t ".to_string()));
    assert!(!is_blank_line(&" a ".to_string()));
}

#[test]
fn resolve_window_around_given_month() {
    let today = d(2024, 5, 5);
    let cmd = resolve(Some(2023), Some(6), Some(2), Some(1), None, today, Defaults::standard()).unwrap();
    assert_eq!(cmd, Command::RenderMonths { year: 2023, month: 6, before: 2, after: 1 });
    let months = cmd.months().unwrap();
    assert_eq!(
        months,
        vec![
            CalendarMonth { year: 2023, month: 4 },
            CalendarMonth { year: 2023, month: 5 },
            CalendarMonth { year: 2023, month: 6 },
            CalendarMonth { year: 2023, month: 7 },
        ]
    );
}

#[test]
fn resolve_uses_context_and_defaults() {
    let today = d(2024, 5, 5);
    let defaults = Defaults::standard();
    assert_eq!(
        resolve(None, None, None, None, None, today, defaults),
        Ok(Command::RenderMonths { year: 2024, month: 5, before: 1, after: 4 })
    );
    assert_eq!(
        resolve(Some(2020), Some(1), None, Some(7), Some(3), today, defaults),
        Ok(Command::RenderMonths { year: 2020, month: 1, before: 3, after: 7 })
    );
    assert_eq!(
        resolve(Some(2020), Some(1), None, None, None, today, defaults),
        Ok(Command::RenderMonths { year: 2020, month: 1, before: 4, after: 4 })
    );
    assert_eq!(
        resolve(Some(2020), None, Some(1), None, None, today, defaults),
        Ok(Command::RenderYear { year: 2020 })
    );
    assert_eq!(
        resolve(Some(2020), Some(13), None, None, None, today, defaults),
        Err(CalendarError::InvalidMonth(13))
    );
}

#[test]
fn year_command_lists_twelve_months() {
    let months = Command::RenderYear { year: 1999 }.months().unwrap();
    assert_eq!(months.len(), 12);
    for (i, m) in months.iter().enumerate() {
        assert_eq!(*m, CalendarMonth { year: 1999, month: i as u8 + 1 });
    }
}

#[test]
fn window_across_year_end_and_range_end() {
    let months = Command::RenderMonths { year: 2024, month: 1, before: 1, after: 1 }.months().unwrap();
    assert_eq!(
        months,
        vec![
            CalendarMonth { year: 2023, month: 12 },
            CalendarMonth { year: 2024, month: 1 },
            CalendarMonth { year: 2024, month: 2 },
        ]
    );
    assert_eq!(
        Command::RenderMonths { year: i32::MAX, month: 11, before: 0, after: 1 }.months(),
        Ok(vec![
            CalendarMonth { year: i32::MAX, month: 11 },
            CalendarMonth { year: i32::MAX, month: 12 },
        ])
    );
    assert_eq!(
        Command::RenderMonths { year: i32::MAX, month: 11, before: 0, after: 2 }.months(),
        Err(CalendarError::Overflow(Overflow::NextMonth))
    );
    assert_eq!(
        Command::RenderMonths { year: i32::MIN, month: 2, before: 2, after: 0 }.months(),
        Err(CalendarError::Overflow(Overflow::PreviousMonth))
    );
}

#[test]
fn render_months_and_compose_a_quarter() {
    let months = Command::RenderMonths { year: 2024, month: 2, before: 1, after: 1 }.months().unwrap();
    let blocks = render_months(&months, d(2024, 2, 14)).unwrap();
    let plain: Vec<Vec<String>> = blocks.iter().map(|b| texts(b)).collect();
    let out = compose(&plain);
    assert_eq!(out.len(), 7);
    assert_eq!(
        out[1],
        "    Mo Tu We Th Fr Sa Su        Mo Tu We Th Fr Sa Su        Mo Tu We Th Fr Sa Su"
    );
    let huge = vec![CalendarMonth { year: 100000, month: 1 }];
    assert!(render_months(&huge, d(2024, 2, 14)).is_err());
}

#[test]
fn first_representable_iso_year_has_its_weeks() {
    let w = IsoWeek::new(d(-9999, 1, 1));
    assert_eq!(w, IsoWeek { year: -9999, week: 1 });
    assert_eq!(w.first_date(), Ok(d(-9999, 1, 1)));
    assert_eq!(w.last_date(), Ok(d(-9999, 1, 7)));
    let jan = CalendarMonth { year: -9999, month: 1 };
    assert_eq!(jan.contains_week(w), Ok(true));
    let lines = texts(&jan.render(d(2024, 1, 1)).unwrap());
    assert_eq!(lines[2], " 1   1  2  3  4  5  6  7");
}

#[test]
fn errors_name_the_failing_operation() {
    let m = CalendarMonth { year: 2024, month: 1 };
    assert_eq!(
        m.contains_week(IsoWeek { year: 2019, week: 53 }),
        Err(CalendarError::Overflow(Overflow::FirstDateInWeek))
    );
    assert_eq!(
        IsoWeek { year: 2019, week: 53 }.weekdays(),
        Err(CalendarError::Overflow(Overflow::FirstDateInWeek))
    );
    assert_eq!(
        m.render_week(IsoWeek { year: 2019, week: 53 }, d(2024, 1, 1)).unwrap_err(),
        CalendarError::Overflow(Overflow::FirstDateInWeek)
    );
    let last = IsoWeek::new(d(9999, 12, 31));
    assert!(last.first_date().is_err() || last.next_week().is_err());
}
