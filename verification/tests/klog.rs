use harlan::hal::klog::{clear_sink, set_sink, Level, Line, SinkSlot};

type Sink = fn(Line<'_>) -> String;

fn collect(line: Line<'_>) -> String {
    format!(
        "{}|{}@{}|{}",
        line.level.name(),
        line.file,
        line.line,
        line.message
    )
}

fn other(line: Line<'_>) -> String {
    format!("other|{}", line.message)
}

fn log(slot: &SinkSlot<Sink>, level: Level, message: &str) -> Option<String> {
    harlan::hal::klog::write(
        slot,
        Line {
            level,
            file: "klog.rs",
            line: 7,
            message,
        },
    )
}

/// The point is that a sink can be set, changed and cleared, which is what
/// moving the kernel needs.
#[test]
fn lines_go_to_whichever_sink_is_set_and_nowhere_when_there_is_none() {
    let mut slot: SinkSlot<Sink> = SinkSlot::new();
    let mut seen = Vec::new();
    clear_sink(&mut slot);
    seen.extend(log(&slot, Level::Info, "dropped 1"));
    assert!(seen.is_empty());

    set_sink(&mut slot, collect as Sink);
    seen.extend(log(&slot, Level::Info, "hello world"));
    seen.extend(log(&slot, Level::Warn, "careful"));
    seen.extend(log(&slot, Level::Error, "broken"));

    // Changing it again is allowed, and that is the whole point: the kernel
    // does it once its code lives somewhere else.
    set_sink(&mut slot, other as Sink);
    seen.extend(log(&slot, Level::Info, "after the move"));

    clear_sink(&mut slot);
    seen.extend(log(&slot, Level::Error, "dropped too"));

    assert_eq!(seen.len(), 4, "{seen:?}");
    assert!(seen[0].starts_with(" INFO|"), "{seen:?}");
    assert!(seen[0].ends_with("|hello world"), "{seen:?}");
    assert!(seen[1].starts_with(" WARN|"), "{seen:?}");
    assert!(seen[2].starts_with("ERROR|"), "{seen:?}");
    assert_eq!(seen[3], "other|after the move");
}
